use vstd::prelude::*;

verus! {

use crate::calc::{is_token_char, is_token_char_exec, selects, selects_char, BitSelector};
use crate::strutil::{push_char, str_eq};
use crate::tokens::{literal_text_spec, DeriveAttr, DeriveDecl, Tok};
use vstd::string::{StrSliceExecFns, StringExecFns};

// The pattern compiler: from a raw pattern string, as written, to the
// canonical pattern and the set of tokens that occur in it, plus the
// binary-literal renderings of the derived masks that the code generator
// splices into accessor bodies.

/// A character kept in the canonical pattern: an ASCII letter (a field
/// token) or an ASCII digit (a literal-bit marker).  Everything else,
/// notably the `_` separator, is dropped without consuming a bit position.
pub open spec fn is_alnum(c: char) -> bool {
    is_token_char(c) || ('0' <= c && c <= '9')
}

/// Runtime form of `is_alnum`.
pub fn is_alnum_exec(c: char) -> (r: bool)
    ensures
        r == is_alnum(c),
{
    is_token_char_exec(c) || ('0' <= c && c <= '9')
}

/// The canonical pattern of a raw pattern: the separators removed, the
/// order kept.  Its length is the bit width the pattern addresses.
pub open spec fn canonical_of(s: Seq<char>) -> Seq<char> {
    s.filter(|c: char| is_alnum(c))
}

/// The distinct characters of `s`, each at its first occurrence.
pub open spec fn distinct_chars(s: Seq<char>) -> Seq<char>
    decreases s.len(),
{
    if s.len() == 0 {
        Seq::empty()
    } else {
        let p = distinct_chars(s.drop_last());
        if p.contains(s.last()) {
            p
        } else {
            p.push(s.last())
        }
    }
}

/// Appending one character extends the canonical pattern by that character
/// exactly when it is alphanumeric.
proof fn lemma_canonical_push(s: Seq<char>, c: char)
    ensures
        canonical_of(s.push(c)) == if is_alnum(c) {
            canonical_of(s).push(c)
        } else {
            canonical_of(s)
        },
{
    reveal(Seq::filter);
    assert(s.push(c).drop_last() =~= s);
    assert(s.push(c).last() == c);
}

/// A compiled pattern: the text as written, its canonical form, and the
/// distinct characters occurring in the canonical form, plus the metadata
/// the code generator needs (the annotated struct's name and the name of
/// its storage integer type).
#[derive(Debug)]
pub struct Pattern {
    pub struct_name: String,
    pub size: String,
    pub trimmed_pattern: String,
    pub original_pattern: String,
    pub tokens: Vec<char>,
}

impl Pattern {
    /// The canonical pattern, as a sequence of characters.
    pub open spec fn canon(self) -> Seq<char> {
        self.trimmed_pattern@
    }

    /// Well-formedness: the canonical form is the raw form with separators
    /// removed and is not empty, and `tokens` lists its distinct characters
    /// in order of first occurrence.
    pub open spec fn wf(self) -> bool {
        &&& self.trimmed_pattern@ == canonical_of(self.original_pattern@)
        &&& self.trimmed_pattern@.len() > 0
        &&& self.tokens@ == distinct_chars(self.trimmed_pattern@)
    }

    /// Compile a raw pattern string, keeping the given struct name and
    /// storage type name.  Fails exactly when nothing but separators
    /// remains: such a pattern addresses no bits at all.
    pub fn new(struct_name: String, size: String, original_pattern: String) -> (r: Result<
        Pattern,
        crate::DeclError,
    >)
        ensures
            r is Ok <==> canonical_of(original_pattern@).len() > 0,
            r matches Ok(p) ==> {
                &&& p.wf()
                &&& p.struct_name@ == struct_name@
                &&& p.size@ == size@
                &&& p.original_pattern@ == original_pattern@
                &&& p.canon() == canonical_of(original_pattern@)
            },
            r is Err ==> r == Err::<Pattern, crate::DeclError>(crate::DeclError::MalformedPattern),
    {
        let trimmed_pattern = filter_alnum(&original_pattern);
        if trimmed_pattern.as_str().unicode_len() == 0 {
            return Err(crate::DeclError::MalformedPattern);
        }
        let tokens = distinct_of(&trimmed_pattern);
        Ok(Pattern { struct_name, size, trimmed_pattern, original_pattern, tokens })
    }
}

/// The character a mask rendering shows at one raw-pattern position:
/// separators pass through, selected characters become `1`, all others `0`.
pub open spec fn marked_char(s: BitSelector, c: char) -> char {
    if c == '_' {
        '_'
    } else if selects(s, c) {
        '1'
    } else {
        '0'
    }
}

/// The binary-literal rendering of a derived mask: `0b` followed by one
/// character per raw-pattern position, separators kept in place.
pub open spec fn marked_string_spec(orig: Seq<char>, s: BitSelector) -> Seq<char> {
    seq!['0', 'b'] + Seq::new(orig.len(), |i: int| marked_char(s, orig[i]))
}

impl Pattern {
    /// Render the mask of `token` as a binary literal over the raw pattern:
    /// `1` at each position holding `token`, `0` at every other bit
    /// position, separators kept.
    pub fn get_token_mask(&self, token: char) -> (r: String)
        ensures
            r@ == marked_string_spec(self.original_pattern@, BitSelector::TokenBits(token)),
    {
        marked_string(&self.original_pattern, BitSelector::TokenBits(token))
    }

    /// Render the default mask as a binary literal over the raw pattern:
    /// `1` at each position fixed to a literal `0` or `1`.
    pub fn get_default_mask(&self) -> (r: String)
        ensures
            r@ == marked_string_spec(self.original_pattern@, BitSelector::LiteralBits),
    {
        marked_string(&self.original_pattern, BitSelector::LiteralBits)
    }

    /// Render the default value as a binary literal over the raw pattern:
    /// `1` at each position fixed to a literal `1`.
    pub fn get_default_value(&self) -> (r: String)
        ensures
            r@ == marked_string_spec(self.original_pattern@, BitSelector::OneBits),
    {
        marked_string(&self.original_pattern, BitSelector::OneBits)
    }
}

/// Build a binary-literal rendering: `0b`, then one character per raw
/// position.
fn marked_string(orig: &String, s: BitSelector) -> (r: String)
    ensures
        r@ == marked_string_spec(orig@, s),
{
    let text = orig.as_str();
    let n = text.unicode_len();
    let mut r = String::new();
    push_char(&mut r, '0');
    push_char(&mut r, 'b');
    let mut i: usize = 0;
    while i < n
        invariant
            n == text@.len(),
            i <= n,
            r@ == seq!['0', 'b'] + Seq::new(i as nat, |k: int| marked_char(s, text@[k])),
        decreases n - i,
    {
        let c = text.get_char(i);
        let m: char = if c == '_' {
            '_'
        } else if selects_char(s, c) {
            '1'
        } else {
            '0'
        };
        push_char(&mut r, m);
        proof {
            assert(r@ =~= seq!['0', 'b'] + Seq::new((i + 1) as nat, |k: int| marked_char(s, text@[k])));
        }
        i += 1;
    }
    proof {
        assert(r@ =~= marked_string_spec(orig@, s));
    }
    r
}

/// How many positions at the least significant end of `p` do not hold `t`:
/// the count of canonical positions strictly to the right of the last
/// occurrence of `t`, or the whole length if `t` never occurs.
pub open spec fn trailing_without(p: Seq<char>, t: char) -> nat
    decreases p.len(),
{
    if p.len() == 0 {
        0
    } else if p.last() == t {
        0
    } else {
        1 + trailing_without(p.drop_last(), t)
    }
}

/// What `trailing_without` counts: everything after the last occurrence
/// differs from `t`, and the position just before the counted suffix, if
/// any, holds `t`.
pub proof fn lemma_trailing_without(p: Seq<char>, t: char)
    ensures
        trailing_without(p, t) <= p.len(),
        (trailing_without(p, t) == p.len()) <==> !p.contains(t),
        trailing_without(p, t) < p.len() ==> p[p.len() - 1 - trailing_without(p, t)] == t,
        forall|j: int| p.len() - trailing_without(p, t) <= j < p.len() ==> p[j] != t,
    decreases p.len(),
{
    if p.len() == 0 {
    } else if p.last() == t {
        assert(p.contains(t));
    } else {
        lemma_trailing_without(p.drop_last(), t);
        assert(p.drop_last().push(p.last()) =~= p);
        if !p.drop_last().contains(t) {
            assert forall|k: int| 0 <= k < p.len() implies p[k] != t by {
                if k < p.len() - 1 {
                    assert(p[k] == p.drop_last()[k]);
                }
            }
            assert(!p.contains(t));
        } else {
            let w = choose|k: int| 0 <= k < p.drop_last().len() && p.drop_last()[k] == t;
            assert(p[w] == t);
            assert(p.contains(t));
        }
    }
}

impl Pattern {
    /// The right-shift offset of `token`: the number of canonical positions
    /// strictly to the right of its least significant occurrence, or the
    /// whole canonical length if the token never occurs.
    pub fn get_token_offset(&self, token: char) -> (r: usize)
        ensures
            r == trailing_without(self.trimmed_pattern@, token),
            r == self.trimmed_pattern@.len() <==> !self.trimmed_pattern@.contains(token),
            r < self.trimmed_pattern@.len() ==> self.trimmed_pattern@[self.trimmed_pattern@.len()
                - 1 - r] == token,
            forall|j: int|
                self.trimmed_pattern@.len() - r <= j < self.trimmed_pattern@.len()
                    ==> self.trimmed_pattern@[j] != token,
    {
        let text = self.trimmed_pattern.as_str();
        let n = text.unicode_len();
        proof {
            assert(text@.take(n as int) =~= text@);
        }
        let mut i: usize = n;
        while i > 0
            invariant
                text@ == self.trimmed_pattern@,
                n == text@.len(),
                i <= n,
                trailing_without(text@, token) == trailing_without(
                    text@.take(i as int),
                    token,
                ) + (n - i),
                forall|j: int| i <= j < n ==> text@[j] != token,
            decreases i,
        {
            let c = text.get_char(i - 1);
            proof {
                assert(text@.take(i as int).last() == text@[i - 1]);
                assert(text@.take(i as int).drop_last() =~= text@.take(i - 1));
            }
            if c == token {
                proof {
                    assert(trailing_without(text@.take(i as int), token) == 0);
                    lemma_trailing_without(text@, token);
                }
                return n - i;
            }
            i -= 1;
        }
        proof {
            assert(text@.take(0).len() == 0);
            lemma_trailing_without(text@, token);
        }
        n - i
    }
}

/// The alphanumeric characters of `s`, in order.
fn filter_alnum(s: &String) -> (r: String)
    ensures
        r@ == canonical_of(s@),
{
    let text = s.as_str();
    let n = text.unicode_len();
    let mut r = String::new();
    let mut i: usize = 0;
    while i < n
        invariant
            n == text@.len(),
            i <= n,
            r@ == canonical_of(text@.take(i as int)),
        decreases n - i,
    {
        let c = text.get_char(i);
        proof {
            assert(text@.take(i + 1).drop_last() =~= text@.take(i as int));
            assert(text@.take(i + 1).last() == text@[i as int]);
            lemma_canonical_push(text@.take(i as int), text@[i as int]);
            assert(text@.take(i as int).push(text@[i as int]) =~= text@.take(i + 1));
        }
        if is_alnum_exec(c) {
            push_char(&mut r, c);
        }
        i += 1;
    }
    proof {
        assert(text@.take(n as int) =~= text@);
    }
    r
}

/// The distinct characters of `s`, each at its first occurrence.
fn distinct_of(s: &String) -> (r: Vec<char>)
    ensures
        r@ == distinct_chars(s@),
{
    let text = s.as_str();
    let n = text.unicode_len();
    let mut r: Vec<char> = Vec::new();
    let mut i: usize = 0;
    while i < n
        invariant
            n == text@.len(),
            i <= n,
            r@ == distinct_chars(text@.take(i as int)),
        decreases n - i,
    {
        let c = text.get_char(i);
        proof {
            assert(text@.take(i + 1).drop_last() =~= text@.take(i as int));
            assert(text@.take(i + 1).last() == text@[i as int]);
        }
        if !vec_contains_char(&r, c) {
            r.push(c);
        }
        i += 1;
    }
    proof {
        assert(text@.take(n as int) =~= text@);
    }
    r
}

/// The characters one trimming pass removes from both ends of a text.
#[derive(Clone, Copy)]
pub enum TrimSet {
    /// Double quotes, as left around a string literal's text.
    QuoteChar,
    /// ASCII whitespace.
    WsChar,
}

/// Whether `c` belongs to the trim set.
pub open spec fn in_trim_set(ts: TrimSet, c: char) -> bool {
    match ts {
        TrimSet::QuoteChar => c == '"',
        TrimSet::WsChar => c == ' ' || c == '\t' || c == '\n' || c == '\r',
    }
}

/// Runtime form of `in_trim_set`.
fn in_trim_set_exec(ts: TrimSet, c: char) -> (r: bool)
    ensures
        r == in_trim_set(ts, c),
{
    match ts {
        TrimSet::QuoteChar => c == '"',
        TrimSet::WsChar => c == ' ' || c == '\t' || c == '\n' || c == '\r',
    }
}

/// `s` without its leading trim-set characters.
pub open spec fn trim_start_spec(s: Seq<char>, ts: TrimSet) -> Seq<char>
    decreases s.len(),
{
    if s.len() > 0 && in_trim_set(ts, s[0]) {
        trim_start_spec(s.drop_first(), ts)
    } else {
        s
    }
}

/// `s` without its trailing trim-set characters.
pub open spec fn trim_end_spec(s: Seq<char>, ts: TrimSet) -> Seq<char>
    decreases s.len(),
{
    if s.len() > 0 && in_trim_set(ts, s.last()) {
        trim_end_spec(s.drop_last(), ts)
    } else {
        s
    }
}

/// `s` without leading and trailing trim-set characters.
pub open spec fn trim_spec(s: Seq<char>, ts: TrimSet) -> Seq<char> {
    trim_end_spec(trim_start_spec(s, ts), ts)
}

/// Leading trim-set characters up to position `k` make `trim_start_spec`
/// the suffix from `k` on.
proof fn lemma_trim_start(s: Seq<char>, ts: TrimSet, k: int)
    requires
        0 <= k <= s.len(),
        forall|j: int| 0 <= j < k ==> in_trim_set(ts, s[j]),
        k == s.len() || !in_trim_set(ts, s[k]),
    ensures
        trim_start_spec(s, ts) == s.subrange(k, s.len() as int),
    decreases k,
{
    if k == 0 {
        assert(s.subrange(0, s.len() as int) =~= s);
    } else {
        lemma_trim_start(s.drop_first(), ts, k - 1);
        assert(s.drop_first().subrange(k - 1, s.drop_first().len() as int) =~= s.subrange(
            k,
            s.len() as int,
        ));
    }
}

/// Trailing trim-set characters from position `k` on make `trim_end_spec`
/// the prefix up to `k`.
proof fn lemma_trim_end(s: Seq<char>, ts: TrimSet, k: int)
    requires
        0 <= k <= s.len(),
        forall|j: int| k <= j < s.len() ==> in_trim_set(ts, s[j]),
        k == 0 || !in_trim_set(ts, s[k - 1]),
    ensures
        trim_end_spec(s, ts) == s.subrange(0, k),
    decreases s.len(),
{
    if s.len() > 0 && in_trim_set(ts, s.last()) {
        lemma_trim_end(s.drop_last(), ts, k);
        assert(s.drop_last().subrange(0, k) =~= s.subrange(0, k));
    } else {
        assert(s.subrange(0, s.len() as int) =~= s);
    }
}

/// Strip every leading and trailing trim-set character of `s`.
fn trim_chars(s: &str, ts: TrimSet) -> (r: String)
    ensures
        r@ == trim_spec(s@, ts),
{
    let n = s.unicode_len();
    let mut lo: usize = 0;
    while lo < n && in_trim_set_exec(ts, s.get_char(lo))
        invariant
            n == s@.len(),
            lo <= n,
            forall|j: int| 0 <= j < lo ==> in_trim_set(ts, s@[j]),
        decreases n - lo,
    {
        lo += 1;
    }
    let mut hi: usize = n;
    while hi > lo && in_trim_set_exec(ts, s.get_char(hi - 1))
        invariant
            n == s@.len(),
            lo <= hi <= n,
            forall|j: int| hi <= j < n ==> in_trim_set(ts, s@[j]),
        decreases hi,
    {
        hi -= 1;
    }
    proof {
        lemma_trim_start(s@, ts, lo as int);
        let t = s@.subrange(lo as int, n as int);
        lemma_trim_end(t, ts, hi - lo);
        assert(t.subrange(0, hi - lo) =~= s@.subrange(lo as int, hi as int));
    }
    let sub = s.substring_char(lo, hi);
    String::from_str(sub)
}

/// Fetch the text of a literal or ident, descending into nested groups
/// through their first token.
fn get_literal(t: Option<&Tok>) -> (r: Result<String, String>)
    ensures
        r is Ok <==> (t matches Some(tk) && literal_text_spec(*tk) is Some),
        r matches Ok(s) ==> literal_text_spec(*t.unwrap()) == Some(s@),
        r matches Err(m) ==> m@ == "expected a literal attribute value"@,
{
    match t {
        Some(tk) => literal_of(tk),
        None => Err(String::from_str("expected a literal attribute value")),
    }
}

/// The recursion behind `get_literal`, over one token.
fn literal_of(t: &Tok) -> (r: Result<String, String>)
    ensures
        r is Ok <==> literal_text_spec(*t) is Some,
        r matches Ok(s) ==> literal_text_spec(*t) == Some(s@),
        r matches Err(m) ==> m@ == "expected a literal attribute value"@,
    decreases *t,
{
    match t {
        Tok::Literal(s) => Ok(s.clone()),
        Tok::Ident(s) => Ok(s.clone()),
        Tok::Group(_, ts) => {
            if ts.len() > 0 {
                literal_of(&ts[0])
            } else {
                Err(String::from_str("expected a literal attribute value"))
            }
        },
        Tok::Punct(_) => Err(String::from_str("expected a literal attribute value")),
    }
}

/// What scanning a declaration's attributes produces: the raw pattern and
/// storage-type texts gathered so far, or the malformation that stopped
/// the scan.
pub enum ScanOut {
    /// The raw pattern text and storage-type text found so far.
    Found(Seq<char>, Seq<char>),
    /// A recognised attribute whose name is not followed by `=`.
    BadPunct,
    /// A recognised attribute with no literal value after the `=`.
    BadLiteral,
}

/// Scanning one attribute.  A `BitrangeMask` value is stripped of its
/// quotes and surrounding whitespace; a `BitrangeSize` value of its quotes;
/// any other attribute is ignored.  Later attributes override earlier ones.
pub open spec fn attr_step(a: DeriveAttr, orig: Seq<char>, size: Seq<char>) -> ScanOut {
    if a.path@ == "BitrangeMask"@ || a.path@ == "BitrangeSize"@ {
        if !(a.tokens@.len() >= 1 && a.tokens@[0] matches Tok::Punct('=')) {
            ScanOut::BadPunct
        } else if a.tokens@.len() < 2 || literal_text_spec(a.tokens@[1]) is None {
            ScanOut::BadLiteral
        } else {
            let lit = literal_text_spec(a.tokens@[1]).unwrap();
            if a.path@ == "BitrangeMask"@ {
                ScanOut::Found(
                    trim_spec(trim_spec(lit, TrimSet::QuoteChar), TrimSet::WsChar),
                    size,
                )
            } else {
                ScanOut::Found(orig, trim_spec(lit, TrimSet::QuoteChar))
            }
        }
    } else {
        ScanOut::Found(orig, size)
    }
}

/// Scanning a whole attribute list, front to back.
pub open spec fn scan_attrs(attrs: Seq<DeriveAttr>, orig: Seq<char>, size: Seq<char>) -> ScanOut
    decreases attrs.len(),
{
    if attrs.len() == 0 {
        ScanOut::Found(orig, size)
    } else {
        match attr_step(attrs[0], orig, size) {
            ScanOut::Found(o2, s2) => scan_attrs(attrs.drop_first(), o2, s2),
            bad => bad,
        }
    }
}

/// What scanning a declaration's attributes yields, starting from nothing.
pub open spec fn parse_outcome(d: DeriveDecl) -> ScanOut {
    scan_attrs(d.attrs@, Seq::empty(), Seq::empty())
}

/// The texts `parse` gathers before they are compiled into a `Pattern`.
struct Parsed {
    struct_name: String,
    original_pattern: String,
    trimmed_pattern: String,
    size: String,
}

impl Pattern {
    /// Walk a declaration's attributes for the raw pattern and the storage
    /// type name, and derive the canonical pattern.
    fn parse(input: &DeriveDecl) -> (r: Result<Parsed, String>)
        ensures
            match parse_outcome(*input) {
                ScanOut::BadPunct => r matches Err(m) && m@
                    == "expected `=` after the attribute name"@,
                ScanOut::BadLiteral => r matches Err(m) && m@
                    == "expected a literal attribute value"@,
                ScanOut::Found(o, s) => {
                    if canonical_of(o).len() == 0 {
                        r matches Err(m) && m@ == "missing attribute `BitrangeMask`"@
                    } else if s.len() == 0 {
                        r matches Err(m) && m@ == "missing attribute `BitrangeSize`"@
                    } else {
                        r matches Ok(p) && {
                            &&& p.struct_name@ == input.ident@
                            &&& p.original_pattern@ == o
                            &&& p.trimmed_pattern@ == canonical_of(o)
                            &&& p.size@ == s
                        }
                    }
                },
            },
    {
        let ghost init_orig: Seq<char> = Seq::empty();
        let ghost init_size: Seq<char> = Seq::empty();
        let mut orig = String::new();
        let mut size = String::new();
        let n = input.attrs.len();
        let mut i: usize = 0;
        proof {
            assert(input.attrs@.skip(0) =~= input.attrs@);
        }
        while i < n
            invariant
                n == input.attrs@.len(),
                i <= n,
                scan_attrs(input.attrs@.skip(i as int), orig@, size@) == scan_attrs(
                    input.attrs@,
                    init_orig,
                    init_size,
                ),
                init_orig == Seq::<char>::empty(),
                init_size == Seq::<char>::empty(),
            decreases n - i,
        {
            proof {
                assert(input.attrs@.skip(i as int).len() > 0);
                assert(input.attrs@.skip(i as int)[0] == input.attrs@[i as int]);
                assert(input.attrs@.skip(i as int).drop_first() =~= input.attrs@.skip(i + 1));
            }
            let a = &input.attrs[i];
            let is_mask = str_eq(a.path.as_str(), "BitrangeMask");
            let is_size = str_eq(a.path.as_str(), "BitrangeSize");
            if is_mask || is_size {
                let mut is_eq = false;
                if a.tokens.len() >= 1 {
                    match &a.tokens[0] {
                        Tok::Punct(c) => {
                            if *c == '=' {
                                is_eq = true;
                            }
                        },
                        _ => {},
                    }
                }
                if !is_eq {
                    return Err(String::from_str("expected `=` after the attribute name"));
                }
                let lit = if a.tokens.len() >= 2 {
                    get_literal(Some(&a.tokens[1]))
                } else {
                    get_literal(None)
                };
                let lit = match lit {
                    Ok(l) => l,
                    Err(m) => {
                        return Err(m);
                    },
                };
                let unquoted = trim_chars(lit.as_str(), TrimSet::QuoteChar);
                if is_mask {
                    orig = trim_chars(unquoted.as_str(), TrimSet::WsChar);
                } else {
                    size = unquoted;
                }
            }
            i += 1;
        }
        proof {
            assert(input.attrs@.skip(n as int).len() == 0);
        }
        let trimmed_pattern = filter_alnum(&orig);
        if trimmed_pattern.as_str().is_empty() {
            return Err(String::from_str("missing attribute `BitrangeMask`"));
        }
        if size.as_str().is_empty() {
            return Err(String::from_str("missing attribute `BitrangeSize`"));
        }
        Ok(Parsed {
            struct_name: input.ident.clone(),
            original_pattern: orig,
            trimmed_pattern,
            size,
        })
    }

    /// Compile a whole derive-style declaration: scan its attributes, then
    /// build the pattern with its token list.
    pub fn from_stream(input: &DeriveDecl) -> (r: Result<Pattern, String>)
        ensures
            match parse_outcome(*input) {
                ScanOut::BadPunct => r matches Err(m) && m@
                    == "expected `=` after the attribute name"@,
                ScanOut::BadLiteral => r matches Err(m) && m@
                    == "expected a literal attribute value"@,
                ScanOut::Found(o, s) => {
                    if canonical_of(o).len() == 0 {
                        r matches Err(m) && m@ == "missing attribute `BitrangeMask`"@
                    } else if s.len() == 0 {
                        r matches Err(m) && m@ == "missing attribute `BitrangeSize`"@
                    } else {
                        r matches Ok(p) && {
                            &&& p.wf()
                            &&& p.struct_name@ == input.ident@
                            &&& p.original_pattern@ == o
                            &&& p.canon() == canonical_of(o)
                            &&& p.size@ == s
                        }
                    }
                },
            },
    {
        let parsed = match Pattern::parse(input) {
            Ok(p) => p,
            Err(m) => {
                return Err(m);
            },
        };
        let tokens = distinct_of(&parsed.trimmed_pattern);
        Ok(
            Pattern {
                struct_name: parsed.struct_name,
                size: parsed.size,
                trimmed_pattern: parsed.trimmed_pattern,
                original_pattern: parsed.original_pattern,
                tokens,
            },
        )
    }
}

/// Whether `v` holds `c`.
pub fn vec_contains_char(v: &Vec<char>, c: char) -> (r: bool)
    ensures
        r == v@.contains(c),
{
    let n = v.len();
    let mut i: usize = 0;
    while i < n
        invariant
            n == v@.len(),
            i <= n,
            forall|j: int| 0 <= j < i ==> v@[j] != c,
        decreases n - i,
    {
        if v[i] == c {
            return true;
        }
        i += 1;
    }
    false
}

} // verus!
