use vstd::prelude::*;

verus! {

use vstd::arithmetic::div_mod::{lemma_div_denominator, lemma_fundamental_div_mod_converse};
use vstd::arithmetic::power2::{
    lemma2_to64, lemma2_to64_rest, lemma_pow2_adds, lemma_pow2_pos, lemma_pow2_strictly_increases,
    pow2,
};

// The mask / offset / default calculators, in their mathematical form.
//
// A canonical pattern is a sequence of characters, most significant position
// first.  Every derived integer is obtained by walking the pattern from the
// most significant end and emitting one bit per position: a `1` wherever the
// position's character is selected, a `0` elsewhere.  The three derived
// integers differ only in which characters they select.

/// A literal-bit marker: a canonical-pattern character that fixes its
/// position to a constant rather than naming a field.
pub open spec fn is_bit_literal(c: char) -> bool {
    c == '0' || c == '1'
}

/// A field token: an alphabetic character.  Only these own entries in the
/// token-position mapping; `0` and `1` are literal-bit markers instead.
pub open spec fn is_token_char(c: char) -> bool {
    ('a' <= c && c <= 'z') || ('A' <= c && c <= 'Z')
}

/// Which pattern characters contribute a one bit to a derived integer.
#[derive(Clone, Copy)]
pub enum BitSelector {
    /// The positions holding one given token: a field's mask.
    TokenBits(char),
    /// The positions fixed to a literal `0` or `1`: the default mask.
    LiteralBits,
    /// The positions fixed to a literal `1`: the default value.
    OneBits,
}

/// Whether character `c` is selected.
pub open spec fn selects(s: BitSelector, c: char) -> bool {
    match s {
        BitSelector::TokenBits(t) => c == t,
        BitSelector::LiteralBits => is_bit_literal(c),
        BitSelector::OneBits => c == '1',
    }
}

/// Runtime form of `selects`.
pub fn selects_char(s: BitSelector, c: char) -> (r: bool)
    ensures
        r == selects(s, c),
{
    match s {
        BitSelector::TokenBits(t) => c == t,
        BitSelector::LiteralBits => c == '0' || c == '1',
        BitSelector::OneBits => c == '1',
    }
}

/// Runtime form of `is_token_char`.
pub fn is_token_char_exec(c: char) -> (r: bool)
    ensures
        r == is_token_char(c),
{
    ('a' <= c && c <= 'z') || ('A' <= c && c <= 'Z')
}

/// The integer whose binary digits, most significant first, are `1` exactly
/// at the positions of `p` whose character is selected.
pub open spec fn bits_of(p: Seq<char>, s: BitSelector) -> nat
    decreases p.len(),
{
    if p.len() == 0 {
        0
    } else {
        2 * bits_of(p.drop_last(), s) + (if selects(s, p.last()) {
            1nat
        } else {
            0nat
        })
    }
}

/// The mask of token `t`: ones exactly at the positions of `p` that hold `t`.
pub open spec fn token_mask_spec(p: Seq<char>, t: char) -> nat {
    bits_of(p, BitSelector::TokenBits(t))
}

/// The default mask: ones exactly at the positions fixed to a literal bit.
pub open spec fn default_mask_spec(p: Seq<char>) -> nat {
    bits_of(p, BitSelector::LiteralBits)
}

/// The default value: ones exactly at the positions fixed to `1`.
pub open spec fn default_value_spec(p: Seq<char>) -> nat {
    bits_of(p, BitSelector::OneBits)
}

/// Bit `j` (counted from the least significant end) of `n`.
pub open spec fn nth_bit(n: nat, j: nat) -> bool {
    (n / pow2(j)) % 2 == 1
}

/// The number of one bits in `n`.
pub open spec fn popcount(n: nat) -> nat
    decreases n,
{
    if n == 0 {
        0
    } else {
        n % 2 + popcount(n / 2)
    }
}

/// Every derived integer fits in the pattern's own width.
pub proof fn lemma_bits_of_bound(p: Seq<char>, s: BitSelector)
    ensures
        bits_of(p, s) < pow2(p.len()),
    decreases p.len(),
{
    if p.len() == 0 {
        assert(pow2(0) == 1) by {
            lemma2_to64();
        }
    } else {
        lemma_bits_of_bound(p.drop_last(), s);
        assert(pow2(p.len()) == 2 * pow2((p.len() - 1) as nat)) by {
            lemma_pow2_adds(1, (p.len() - 1) as nat);
            lemma2_to64();
        }
    }
}

/// Splitting one step of `bits_of` off at the least significant end:
/// the last pattern position becomes bit zero.
proof fn lemma_bits_of_step(b: nat, x: nat, j: nat)
    requires
        x < 2,
    ensures
        (2 * b + x) % 2 == x,
        (2 * b + x) / 2 == b,
        j > 0 ==> nth_bit(2 * b + x, j) == nth_bit(b, (j - 1) as nat),
{
    lemma_fundamental_div_mod_converse((2 * b + x) as int, 2, b as int, x as int);
    if j > 0 {
        lemma_pow2_pos((j - 1) as nat);
        assert(pow2(j) == 2 * pow2((j - 1) as nat)) by {
            lemma_pow2_adds(1, (j - 1) as nat);
            lemma2_to64();
        }
        lemma_div_denominator((2 * b + x) as int, 2, pow2((j - 1) as nat) as int);
    }
}

/// Bit-level reading of `bits_of`: bit `j` of the result is set exactly when
/// position `p.len() - 1 - j` of the pattern is selected.
pub proof fn lemma_bits_of_nth_bit(p: Seq<char>, s: BitSelector, j: nat)
    ensures
        nth_bit(bits_of(p, s), j) <==> (j < p.len() && selects(s, p[p.len() - 1 - j])),
    decreases p.len(),
{
    if p.len() == 0 {
        lemma_pow2_pos(j);
    } else {
        let b = bits_of(p.drop_last(), s);
        let x: nat = if selects(s, p.last()) {
            1
        } else {
            0
        };
        lemma_bits_of_step(b, x, j);
        if j == 0 {
            assert(pow2(0) == 1) by {
                lemma2_to64();
            }
            assert(nth_bit(2 * b + x, 0) == (x == 1));
        } else {
            lemma_bits_of_nth_bit(p.drop_last(), s, (j - 1) as nat);
        }
    }
}

/// Counting the one bits of `bits_of` counts the selected positions.
pub proof fn lemma_bits_of_popcount(p: Seq<char>, s: BitSelector)
    ensures
        popcount(bits_of(p, s)) == p.filter(|c: char| selects(s, c)).len(),
    decreases p.len(),
{
    reveal(Seq::filter);
    if p.len() == 0 {
    } else {
        let b = bits_of(p.drop_last(), s);
        let x: nat = if selects(s, p.last()) {
            1
        } else {
            0
        };
        lemma_bits_of_step(b, x, 0);
        lemma_bits_of_popcount(p.drop_last(), s);
        if 2 * b + x == 0 {
        } else {
            assert(popcount(2 * b + x) == x + popcount(b));
        }
    }
}

/// If two selectors never accept the same character, their derived integers
/// have no bit in common.
pub proof fn lemma_bits_of_disjoint(p: Seq<char>, s1: BitSelector, s2: BitSelector)
    requires
        p.len() <= 64,
        forall|c: char| !(#[trigger] selects(s1, c) && selects(s2, c)),
    ensures
        (bits_of(p, s1) as u64) & (bits_of(p, s2) as u64) == 0,
    decreases p.len(),
{
    if p.len() == 0 {
        assert(0u64 & 0u64 == 0) by (bit_vector);
    } else {
        lemma_bits_of_disjoint(p.drop_last(), s1, s2);
        lemma_bits_of_bound(p.drop_last(), s1);
        lemma_bits_of_bound(p.drop_last(), s2);
        lemma_pow2_le_63(p.drop_last().len());
        let a0: u64 = bits_of(p.drop_last(), s1) as u64;
        let b0: u64 = bits_of(p.drop_last(), s2) as u64;
        let x: u64 = if selects(s1, p.last()) {
            1
        } else {
            0
        };
        let y: u64 = if selects(s2, p.last()) {
            1
        } else {
            0
        };
        let a1: u64 = bits_of(p, s1) as u64;
        let b1: u64 = bits_of(p, s2) as u64;
        assert(a1 & b1 == 0) by (bit_vector)
            requires
                a0 & b0 == 0,
                !(x == 1 && y == 1),
                x < 2,
                y < 2,
                a0 < 0x8000_0000_0000_0000,
                b0 < 0x8000_0000_0000_0000,
                a1 == 2 * a0 + x,
                b1 == 2 * b0 + y,
        ;
    }
}

/// If every character the first selector accepts, the second accepts too,
/// then the first derived integer only sets bits that the second also sets.
pub proof fn lemma_bits_of_subset(p: Seq<char>, s1: BitSelector, s2: BitSelector)
    requires
        p.len() <= 64,
        forall|c: char| #[trigger] selects(s1, c) ==> selects(s2, c),
    ensures
        (bits_of(p, s1) as u64) & !(bits_of(p, s2) as u64) == 0,
        (bits_of(p, s1) as u64) & (bits_of(p, s2) as u64) == bits_of(p, s1) as u64,
    decreases p.len(),
{
    if p.len() == 0 {
        assert(0u64 & !0u64 == 0 && 0u64 & 0u64 == 0) by (bit_vector);
    } else {
        lemma_bits_of_subset(p.drop_last(), s1, s2);
        lemma_bits_of_bound(p.drop_last(), s1);
        lemma_bits_of_bound(p.drop_last(), s2);
        lemma_pow2_le_63(p.drop_last().len());
        let a0: u64 = bits_of(p.drop_last(), s1) as u64;
        let b0: u64 = bits_of(p.drop_last(), s2) as u64;
        let x: u64 = if selects(s1, p.last()) {
            1
        } else {
            0
        };
        let y: u64 = if selects(s2, p.last()) {
            1
        } else {
            0
        };
        let a1: u64 = bits_of(p, s1) as u64;
        let b1: u64 = bits_of(p, s2) as u64;
        assert(a1 & !b1 == 0 && a1 & b1 == a1) by (bit_vector)
            requires
                a0 & !b0 == 0,
                x <= y,
                x < 2,
                y < 2,
                a0 < 0x8000_0000_0000_0000,
                b0 < 0x8000_0000_0000_0000,
                a1 == 2 * a0 + x,
                b1 == 2 * b0 + y,
        ;
    }
}

/// A power of two with exponent below 64 fits under `2^63`.
proof fn lemma_pow2_le_63(e: nat)
    requires
        e <= 63,
    ensures
        pow2(e) <= 0x8000_0000_0000_0000,
{
    if e < 63 {
        lemma_pow2_strictly_increases(e, 63);
    }
    lemma2_to64_rest();
}

/// A token's mask places its one bits exactly at the token's canonical
/// positions, read from the least significant end, and sets exactly one bit
/// per occurrence of the token.
pub proof fn lemma_token_mask_bits(p: Seq<char>, t: char)
    ensures
        forall|j: nat|
            #[trigger] nth_bit(token_mask_spec(p, t), j) <==> (j < p.len() && p[p.len() - 1 - j]
                == t),
        popcount(token_mask_spec(p, t)) == p.filter(
            |c: char| selects(BitSelector::TokenBits(t), c),
        ).len(),
{
    let s = BitSelector::TokenBits(t);
    assert forall|j: nat|
        #[trigger] nth_bit(token_mask_spec(p, t), j) <==> (j < p.len() && p[p.len() - 1 - j]
            == t) by {
        lemma_bits_of_nth_bit(p, s, j);
    }
    lemma_bits_of_popcount(p, s);
}

/// A field token's mask and the default mask never overlap: a position is
/// either a field position or a literal-bit position, never both.
pub proof fn lemma_mask_default_disjoint(p: Seq<char>, t: char)
    requires
        p.len() <= 64,
        !is_bit_literal(t),
    ensures
        (token_mask_spec(p, t) as u64) & (default_mask_spec(p) as u64) == 0,
{
    lemma_bits_of_disjoint(p, BitSelector::TokenBits(t), BitSelector::LiteralBits);
}

/// The binary digits of `n` in `width` positions, most significant first.
pub open spec fn bin_digits(n: nat, width: nat) -> Seq<char>
    decreases width,
{
    if width == 0 {
        Seq::empty()
    } else {
        bin_digits(n / 2, (width - 1) as nat).push(
            if n % 2 == 1 {
                '1'
            } else {
                '0'
            },
        )
    }
}

/// A derived integer and its one-character-per-position rendering denote
/// the same thing: reading the rendering as a binary numeral of the
/// pattern's width yields exactly the integer.
pub proof fn lemma_bits_of_digits(p: Seq<char>, s: BitSelector)
    ensures
        Seq::new(
            p.len(),
            |i: int|
                if selects(s, p[i]) {
                    '1'
                } else {
                    '0'
                },
        ) == bin_digits(bits_of(p, s), p.len()),
    decreases p.len(),
{
    if p.len() == 0 {
        assert(Seq::new(
            0,
            |i: int|
                if selects(s, p[i]) {
                    '1'
                } else {
                    '0'
                },
        ) =~= Seq::<char>::empty());
    } else {
        lemma_bits_of_digits(p.drop_last(), s);
        let b = bits_of(p.drop_last(), s);
        let x: nat = if selects(s, p.last()) {
            1
        } else {
            0
        };
        lemma_bits_of_step(b, x, 0);
        assert(Seq::new(
            p.len(),
            |i: int|
                if selects(s, p[i]) {
                    '1'
                } else {
                    '0'
                },
        ) =~= Seq::new(
            p.drop_last().len(),
            |i: int|
                if selects(s, p.drop_last()[i]) {
                    '1'
                } else {
                    '0'
                },
        ).push(
            if selects(s, p.last()) {
                '1'
            } else {
                '0'
            },
        ));
    }
}

/// Compute a derived integer by walking the canonical pattern from the
/// most significant end.
pub fn bits_value(s: &str, sel: BitSelector) -> (r: u64)
    requires
        s@.len() <= 64,
    ensures
        r == bits_of(s@, sel),
{
    let n = s.unicode_len();
    let mut m: u64 = 0;
    let mut i: usize = 0;
    proof {
        assert(s@.take(0).len() == 0);
    }
    while i < n
        invariant
            n == s@.len(),
            n <= 64,
            i <= n,
            m == bits_of(s@.take(i as int), sel),
        decreases n - i,
    {
        let c = s.get_char(i);
        proof {
            assert(s@.take(i + 1).drop_last() =~= s@.take(i as int));
            assert(s@.take(i + 1).last() == s@[i as int]);
            lemma_bits_of_bound(s@.take(i as int), sel);
            lemma_pow2_le_63(i as nat);
        }
        let b: u64 = if selects_char(sel, c) {
            1
        } else {
            0
        };
        m = 2 * m + b;
        i += 1;
    }
    proof {
        assert(s@.take(n as int) =~= s@);
    }
    m
}

impl crate::pattern::Pattern {
    /// Whether `t` owns an entry in the token-position mapping: it is a
    /// field token (alphabetic) and occurs in the canonical pattern.
    pub open spec fn has_token(self, t: char) -> bool {
        is_token_char(t) && self.canon().contains(t)
    }

    /// Runtime form of `has_token`.
    pub fn contains_token(&self, t: char) -> (r: bool)
        ensures
            r == self.has_token(t),
    {
        is_token_char_exec(t) && crate::strutil::str_contains_char(
            self.trimmed_pattern.as_str(),
            t,
        )
    }

    /// The mask of `token` as an integer: ones exactly at the canonical
    /// positions holding `token`.  Fails exactly when `token` owns no entry
    /// in the token-position mapping.
    pub fn mask_of(&self, token: char) -> (r: Result<u64, crate::DeclError>)
        requires
            self.canon().len() <= 64,
        ensures
            r is Ok <==> self.has_token(token),
            r matches Ok(m) ==> m == token_mask_spec(self.canon(), token),
            r is Err ==> r == Err::<u64, crate::DeclError>(crate::DeclError::UnknownToken),
    {
        if !self.contains_token(token) {
            return Err(crate::DeclError::UnknownToken);
        }
        Ok(bits_value(self.trimmed_pattern.as_str(), BitSelector::TokenBits(token)))
    }

    /// The right-shift offset of `token`: the number of canonical positions
    /// strictly to the right of its least significant occurrence.  Fails
    /// exactly when `token` owns no entry in the token-position mapping.
    pub fn offset_of(&self, token: char) -> (r: Result<usize, crate::DeclError>)
        ensures
            r is Ok <==> self.has_token(token),
            r matches Ok(o) ==> {
                &&& o == crate::pattern::trailing_without(self.canon(), token)
                &&& o < self.canon().len()
                &&& self.canon()[self.canon().len() - 1 - o] == token
                &&& forall|j: int|
                    self.canon().len() - o <= j < self.canon().len() ==> self.canon()[j] != token
            },
            r is Err ==> r == Err::<usize, crate::DeclError>(crate::DeclError::UnknownToken),
    {
        if !self.contains_token(token) {
            return Err(crate::DeclError::UnknownToken);
        }
        Ok(self.get_token_offset(token))
    }

    /// The default mask as an integer: ones exactly at the canonical
    /// positions fixed to a literal `0` or `1`.
    pub fn default_mask_of(&self) -> (r: u64)
        requires
            self.canon().len() <= 64,
        ensures
            r == default_mask_spec(self.canon()),
    {
        bits_value(self.trimmed_pattern.as_str(), BitSelector::LiteralBits)
    }

    /// The default value as an integer: ones exactly at the canonical
    /// positions fixed to a literal `1`.
    pub fn default_value_of(&self) -> (r: u64)
        requires
            self.canon().len() <= 64,
        ensures
            r == default_value_spec(self.canon()),
    {
        bits_value(self.trimmed_pattern.as_str(), BitSelector::OneBits)
    }
}

/// The default value only sets bits that the default mask also fixes.
pub proof fn lemma_default_value_in_mask(p: Seq<char>)
    requires
        p.len() <= 64,
    ensures
        (default_value_spec(p) as u64) & !(default_mask_spec(p) as u64) == 0,
        (default_value_spec(p) as u64) & (default_mask_spec(p) as u64) == default_value_spec(
            p,
        ) as u64,
{
    lemma_bits_of_subset(p, BitSelector::OneBits, BitSelector::LiteralBits);
}

} // verus!
