use vstd::prelude::*;

verus! {

use crate::strutil::push_char;
use crate::tokens::{Delim, Tok};
use vstd::string::{StrSliceExecFns, StringExecFns};

// The token-stream front end: reading a pattern and a selector token out
// of an already-lexed invocation such as `[aaa1_0bbb], a`, and rendering
// the derived integers as literals for splicing into generated source.

/// A character dropped when a pattern is read out of a token stream:
/// the `_` separator and ASCII whitespace.
pub open spec fn is_strip_char(c: char) -> bool {
    c == '_' || c == ' ' || c == '\t' || c == '\n' || c == '\r'
}

/// `s` with separators and whitespace removed.
pub open spec fn stripped(s: Seq<char>) -> Seq<char> {
    s.filter(|c: char| !is_strip_char(c))
}

/// Appending one character extends the stripped text by that character
/// exactly when it is kept.
proof fn lemma_stripped_push(s: Seq<char>, c: char)
    ensures
        stripped(s.push(c)) == if is_strip_char(c) {
            stripped(s)
        } else {
            stripped(s).push(c)
        },
{
    reveal(Seq::filter);
    assert(s.push(c).drop_last() =~= s);
    assert(s.push(c).last() == c);
}

/// The pattern text carried by a token: a bracket-delimited (or
/// undelimited) group whose first token, descending through nested groups,
/// is a word; that word with separators and whitespace removed.
pub open spec fn pattern_text_spec(t: Tok) -> Option<Seq<char>>
    decreases t,
{
    match t {
        Tok::Group(d, ts) => {
            if (d is Bracket || d is Plain) && ts@.len() > 0 {
                match ts@[0] {
                    Tok::Ident(s) => Some(stripped(s@)),
                    Tok::Group(_, _) => pattern_text_spec(ts@[0]),
                    _ => None,
                }
            } else {
                None
            }
        },
        _ => None,
    }
}

/// The selector carried by a token: a single-character word, possibly
/// nested in groups through their first token.
pub open spec fn selector_spec(t: Tok) -> Option<char>
    decreases t,
{
    match t {
        Tok::Ident(s) => if s@.len() == 1 {
            Some(s@[0])
        } else {
            None
        },
        Tok::Group(_, ts) => if ts@.len() > 0 {
            selector_spec(ts@[0])
        } else {
            None
        },
        _ => None,
    }
}

/// The zero-based indices at which `c` occurs in `s`, in increasing order.
pub open spec fn positions_of(s: Seq<char>, c: char) -> Seq<usize>
    decreases s.len(),
{
    if s.len() == 0 {
        Seq::empty()
    } else {
        let p = positions_of(s.drop_last(), c);
        if s.last() == c {
            p.push((s.len() - 1) as usize)
        } else {
            p
        }
    }
}

/// What `positions_of` records: exactly the occurrences of `c`, strictly
/// increasing and within bounds.
pub proof fn lemma_positions_of(s: Seq<char>, c: char)
    requires
        s.len() <= usize::MAX,
    ensures
        forall|k: int|
            0 <= k < positions_of(s, c).len() ==> positions_of(s, c)[k] < s.len() && s[positions_of(
                s,
                c,
            )[k] as int] == c,
        forall|k1: int, k2: int|
            0 <= k1 < k2 < positions_of(s, c).len() ==> positions_of(s, c)[k1] < positions_of(
                s,
                c,
            )[k2],
        forall|j: int| 0 <= j < s.len() && s[j] == c ==> positions_of(s, c).contains(j as usize),
        positions_of(s, c).len() == 0 <==> !s.contains(c),
    decreases s.len(),
{
    if s.len() == 0 {
    } else {
        lemma_positions_of(s.drop_last(), c);
        let p0 = positions_of(s.drop_last(), c);
        let p = positions_of(s, c);
        assert(s.drop_last().push(s.last()) =~= s);
        assert forall|j: int| 0 <= j < s.len() - 1 implies s.drop_last()[j] == s[j] by {}
        assert forall|k: int| 0 <= k < p.len() implies p[k] < s.len() && s[p[k] as int] == c by {
            if k < p0.len() {
                assert(p[k] == p0[k]);
                assert(p0[k] < s.drop_last().len());
                assert(s.drop_last()[p0[k] as int] == c);
            } else {
                assert(s.last() == c && p[k] == (s.len() - 1) as usize);
            }
        }
        assert forall|k1: int, k2: int| 0 <= k1 < k2 < p.len() implies p[k1] < p[k2] by {
            if k2 < p0.len() {
                assert(p[k1] == p0[k1] && p[k2] == p0[k2]);
            } else {
                assert(p[k1] == p0[k1]);
                assert(p0[k1] < s.drop_last().len());
            }
        }
        assert forall|j: int| 0 <= j < s.len() && s[j] == c implies p.contains(j as usize) by {
            if j < s.len() - 1 {
                assert(s.drop_last()[j] == c);
                assert(p0.contains(j as usize));
                let w = choose|k: int| 0 <= k < p0.len() && p0[k] == j as usize;
                assert(p[w] == j as usize);
            } else {
                assert(s.last() == c);
                assert(p[p.len() - 1] == j as usize);
            }
        }
        if s.last() == c {
            assert(p[p.len() - 1] == (s.len() - 1) as usize);
            assert(s.contains(c)) by {
                assert(s[s.len() - 1] == c);
            }
        } else {
            if p.len() == 0 {
                assert forall|j: int| 0 <= j < s.len() implies s[j] != c by {
                    if j < s.len() - 1 {
                        assert(s.drop_last()[j] == s[j]);
                        if s[j] == c {
                            assert(s.drop_last().contains(c));
                        }
                    }
                }
            } else {
                assert(s.drop_last().contains(c));
                let w = choose|k: int| 0 <= k < s.drop_last().len() && s.drop_last()[k] == c;
                assert(s[w] == c);
                assert(s.contains(c));
            }
        }
    }
}

/// A pattern read from a token stream: the stripped pattern text, and the
/// recorded positions of the selector token, if one was given.
#[derive(Debug)]
pub struct Pattern {
    pub pattern: String,
    pub current: Vec<usize>,
}

impl Pattern {
    /// Well-formedness: every recorded position lies in the pattern and
    /// the positions increase strictly.
    pub open spec fn wf(self) -> bool {
        &&& forall|k: int| 0 <= k < self.current@.len() ==> self.current@[k] < self.pattern@.len()
        &&& forall|k1: int, k2: int|
            0 <= k1 < k2 < self.current@.len() ==> self.current@[k1] < self.current@[k2]
    }
}

/// The error text a malformed invocation produces.
pub open spec fn with_selector_err(toks: Seq<Tok>) -> Seq<char> {
    if !(toks.len() >= 1 && pattern_text_spec(toks[0]) is Some) {
        "expected a bracket-delimited pattern"@
    } else if !(toks.len() >= 2 && toks[1] matches Tok::Punct(',')) {
        "expected a comma"@
    } else if !(toks.len() >= 3 && selector_spec(toks[2]) is Some) {
        "expected a single-character selector"@
    } else if toks.len() != 3 {
        "unexpected trailing token"@
    } else {
        "token not found in pattern"@
    }
}

/// What a well-formed invocation `[pattern], selector` carries: the
/// stripped pattern text and the selector, provided the selector occurs in
/// the pattern.
pub open spec fn with_selector_outcome(toks: Seq<Tok>) -> Option<(Seq<char>, char)> {
    if toks.len() == 3 && pattern_text_spec(toks[0]) is Some && (toks[1] matches Tok::Punct(','))
        && selector_spec(toks[2]) is Some {
        let pat = pattern_text_spec(toks[0]).unwrap();
        let sel = selector_spec(toks[2]).unwrap();
        if positions_of(pat, sel).len() > 0 {
            Some((pat, sel))
        } else {
            None
        }
    } else {
        None
    }
}

impl Pattern {
    /// Read `[pattern], selector` out of a token stream and record where
    /// the selector occurs in the pattern.  Fails when the invocation has
    /// the wrong shape or the selector never occurs.
    pub fn from_stream_with_selector(toks: &Vec<Tok>) -> (r: Result<Pattern, String>)
        ensures
            r is Ok <==> with_selector_outcome(toks@) is Some,
            r matches Ok(p) ==> {
                let (pat, sel) = with_selector_outcome(toks@).unwrap();
                &&& p.pattern@ == pat
                &&& p.current@ == positions_of(pat, sel)
                &&& p.current@.len() > 0
                &&& p.wf()
            },
            r matches Err(m) ==> m@ == with_selector_err(toks@),
    {
        let pattern = match parse_pattern(
            if toks.len() >= 1 {
                Some(&toks[0])
            } else {
                None
            },
        ) {
            Ok(p) => p,
            Err(m) => {
                return Err(m);
            },
        };
        match consume_comma(
            if toks.len() >= 2 {
                Some(&toks[1])
            } else {
                None
            },
        ) {
            Ok(u) => u,
            Err(m) => {
                return Err(m);
            },
        }
        let selector = match parse_selector(
            if toks.len() >= 3 {
                Some(&toks[2])
            } else {
                None
            },
        ) {
            Ok(c) => c,
            Err(m) => {
                return Err(m);
            },
        };
        if toks.len() != 3 {
            return Err(String::from_str("unexpected trailing token"));
        }
        let current = positions_vec(pattern.as_str(), selector);
        proof {
            lemma_positions_of(pattern@, selector);
        }
        if current.len() == 0 {
            return Err(String::from_str("token not found in pattern"));
        }
        Ok(Pattern { pattern, current })
    }

    /// Read `[pattern]` out of a token stream, recording no positions.
    pub fn from_stream(toks: &Vec<Tok>) -> (r: Result<Pattern, String>)
        ensures
            r is Ok <==> (toks@.len() >= 1 && pattern_text_spec(toks@[0]) is Some),
            r matches Ok(p) ==> {
                &&& Some(p.pattern@) == pattern_text_spec(toks@[0])
                &&& p.current@.len() == 0
                &&& p.wf()
            },
            r matches Err(m) ==> m@ == "expected a bracket-delimited pattern"@,
    {
        let pattern = match parse_pattern(
            if toks.len() >= 1 {
                Some(&toks[0])
            } else {
                None
            },
        ) {
            Ok(p) => p,
            Err(m) => {
                return Err(m);
            },
        };
        Ok(Pattern { pattern, current: Vec::new() })
    }
}

/// Read a pattern out of one token: a bracket-delimited group whose first
/// token, descending through nested groups, is a word.
pub fn parse_pattern(item: Option<&Tok>) -> (r: Result<String, String>)
    ensures
        r is Ok <==> (item matches Some(t) && pattern_text_spec(*t) is Some),
        r matches Ok(s) ==> pattern_text_spec(*item.unwrap()) == Some(s@),
        r matches Err(m) ==> m@ == "expected a bracket-delimited pattern"@,
{
    match item {
        Some(t) => pattern_text(t),
        None => Err(String::from_str("expected a bracket-delimited pattern")),
    }
}

/// The recursion behind `parse_pattern`, over one token.
fn pattern_text(t: &Tok) -> (r: Result<String, String>)
    ensures
        r is Ok <==> pattern_text_spec(*t) is Some,
        r matches Ok(s) ==> pattern_text_spec(*t) == Some(s@),
        r matches Err(m) ==> m@ == "expected a bracket-delimited pattern"@,
    decreases *t,
{
    match t {
        Tok::Group(d, ts) => {
            let delim_ok = match d {
                Delim::Bracket => true,
                Delim::Plain => true,
                _ => false,
            };
            if delim_ok && ts.len() > 0 {
                match &ts[0] {
                    Tok::Ident(s) => Ok(strip_string(s)),
                    Tok::Group(_, _) => pattern_text(&ts[0]),
                    _ => Err(String::from_str("expected a bracket-delimited pattern")),
                }
            } else {
                Err(String::from_str("expected a bracket-delimited pattern"))
            }
        },
        _ => Err(String::from_str("expected a bracket-delimited pattern")),
    }
}

/// Demand a comma between the pattern and the selector.
pub fn consume_comma(item: Option<&Tok>) -> (r: Result<(), String>)
    ensures
        r is Ok <==> (item matches Some(t) && *t matches Tok::Punct(',')),
        r matches Err(m) ==> m@ == "expected a comma"@,
{
    match item {
        Some(Tok::Punct(c)) => {
            if *c == ',' {
                Ok(())
            } else {
                Err(String::from_str("expected a comma"))
            }
        },
        _ => Err(String::from_str("expected a comma")),
    }
}

/// Read the selector: a single-character word, possibly nested in groups.
pub fn parse_selector(item: Option<&Tok>) -> (r: Result<char, String>)
    ensures
        r is Ok <==> (item matches Some(t) && selector_spec(*t) is Some),
        r matches Ok(c) ==> selector_spec(*item.unwrap()) == Some(c),
        r matches Err(m) ==> m@ == "expected a single-character selector"@,
{
    match item {
        Some(t) => selector_of(t),
        None => Err(String::from_str("expected a single-character selector")),
    }
}

/// The recursion behind `parse_selector`, over one token.
fn selector_of(t: &Tok) -> (r: Result<char, String>)
    ensures
        r is Ok <==> selector_spec(*t) is Some,
        r matches Ok(c) ==> selector_spec(*t) == Some(c),
        r matches Err(m) ==> m@ == "expected a single-character selector"@,
    decreases *t,
{
    match t {
        Tok::Ident(s) => {
            let text = s.as_str();
            if text.unicode_len() == 1 {
                Ok(text.get_char(0))
            } else {
                Err(String::from_str("expected a single-character selector"))
            }
        },
        Tok::Group(_, ts) => {
            if ts.len() > 0 {
                selector_of(&ts[0])
            } else {
                Err(String::from_str("expected a single-character selector"))
            }
        },
        _ => Err(String::from_str("expected a single-character selector")),
    }
}

/// The binary-literal rendering of the selector's mask: `0b`, then `1` at
/// each recorded position and `0` elsewhere.
pub open spec fn proc_mask_spec(pat: Seq<char>, cur: Seq<usize>) -> Seq<char> {
    seq!['0', 'b'] + Seq::new(
        pat.len(),
        |i: int|
            if cur.contains(i as usize) {
                '1'
            } else {
                '0'
            },
    )
}

/// The binary-literal rendering of a fixed-bit mask over a stripped
/// pattern: `0b`, then `1` at each selected character and `0` elsewhere.
pub open spec fn proc_marked_spec(pat: Seq<char>, s: crate::calc::BitSelector) -> Seq<char> {
    seq!['0', 'b'] + Seq::new(
        pat.len(),
        |i: int|
            if crate::calc::selects(s, pat[i]) {
                '1'
            } else {
                '0'
            },
    )
}

/// The largest element of a non-empty sequence.
pub open spec fn seq_max(s: Seq<usize>) -> usize
    decreases s.len(),
{
    if s.len() <= 1 {
        if s.len() == 1 {
            s[0]
        } else {
            0
        }
    } else {
        let m = seq_max(s.drop_last());
        if s.last() > m {
            s.last()
        } else {
            m
        }
    }
}

/// The largest element is an element and bounds all of them.
proof fn lemma_seq_max(s: Seq<usize>)
    requires
        s.len() > 0,
    ensures
        s.contains(seq_max(s)),
        forall|k: int| 0 <= k < s.len() ==> s[k] <= seq_max(s),
    decreases s.len(),
{
    if s.len() == 1 {
        assert(s[0] == seq_max(s));
    } else {
        lemma_seq_max(s.drop_last());
        let m0 = seq_max(s.drop_last());
        assert forall|k: int| 0 <= k < s.len() implies s[k] <= seq_max(s) by {
            if k < s.len() - 1 {
                assert(s.drop_last()[k] == s[k]);
            }
        }
        if s.last() > m0 {
            assert(s[s.len() - 1] == seq_max(s));
        } else {
            let w = choose|k: int| 0 <= k < s.drop_last().len() && s.drop_last()[k] == m0;
            assert(s[w] == m0);
        }
    }
}

/// A fixed-bit rendering is the binary numeral of the corresponding
/// derived integer: what the emitted literal says is what the calculators
/// compute.
pub proof fn lemma_proc_marked_is_digits(pat: Seq<char>, s: crate::calc::BitSelector)
    ensures
        proc_marked_spec(pat, s) == seq!['0', 'b'] + crate::calc::bin_digits(
            crate::calc::bits_of(pat, s),
            pat.len(),
        ),
{
    crate::calc::lemma_bits_of_digits(pat, s);
}

/// The two ways of rendering a token's mask agree: marking the recorded
/// positions of the token marks exactly the positions holding it.
pub proof fn lemma_proc_mask_matches_token(pat: Seq<char>, t: char)
    requires
        pat.len() <= usize::MAX,
    ensures
        proc_mask_spec(pat, positions_of(pat, t)) == proc_marked_spec(
            pat,
            crate::calc::BitSelector::TokenBits(t),
        ),
{
    lemma_positions_of(pat, t);
    assert forall|i: int| 0 <= i < pat.len() implies positions_of(pat, t).contains(i as usize)
        == (pat[i] == t) by {
        if positions_of(pat, t).contains(i as usize) {
            let w = choose|k: int|
                0 <= k < positions_of(pat, t).len() && positions_of(pat, t)[k] == i as usize;
            assert(pat[positions_of(pat, t)[w] as int] == t);
        }
    }
    assert(Seq::new(
        pat.len(),
        |i: int|
            if positions_of(pat, t).contains(i as usize) {
                '1'
            } else {
                '0'
            },
    ) =~= Seq::new(
        pat.len(),
        |i: int|
            if crate::calc::selects(crate::calc::BitSelector::TokenBits(t), pat[i]) {
                '1'
            } else {
                '0'
            },
    ));
}

/// The two front ends agree on a token's offset: counting the positions
/// after the last recorded occurrence equals counting the trailing
/// positions that do not hold the token.
pub proof fn lemma_offset_of_positions(s: Seq<char>, c: char)
    requires
        s.contains(c),
        s.len() <= usize::MAX,
    ensures
        positions_of(s, c).len() > 0,
        seq_max(positions_of(s, c)) == s.len() - 1 - crate::pattern::trailing_without(s, c),
    decreases s.len(),
{
    lemma_positions_of(s, c);
    let p = positions_of(s, c);
    let p0 = positions_of(s.drop_last(), c);
    if s.last() == c {
        if p0.len() > 0 {
            lemma_positions_of(s.drop_last(), c);
            assert(p.drop_last() =~= p0);
            assert(p.last() == (s.len() - 1) as usize);
            lemma_seq_max_push(p0, (s.len() - 1) as usize);
        } else {
            assert(p =~= seq![(s.len() - 1) as usize]);
        }
    } else {
        assert(s.drop_last().push(s.last()) =~= s);
        let w = choose|j: int| 0 <= j < s.len() && s[j] == c;
        assert(s.drop_last()[w] == c);
        assert(s.drop_last().contains(c));
        lemma_offset_of_positions(s.drop_last(), c);
        assert(p =~= p0);
    }
}

/// Pushing a new largest element makes it the maximum.
proof fn lemma_seq_max_push(s: Seq<usize>, x: usize)
    requires
        s.len() > 0,
        forall|k: int| 0 <= k < s.len() ==> s[k] <= x,
    ensures
        seq_max(s.push(x)) == x,
{
    lemma_seq_max(s);
    assert(s.push(x).drop_last() =~= s);
    assert(s.push(x).last() == x);
}

/// Render the selector's mask as a binary literal: `1` exactly at the
/// recorded positions.
pub fn proc_mask(p: &Pattern) -> (r: String)
    ensures
        r@ == proc_mask_spec(p.pattern@, p.current@),
{
    let text = p.pattern.as_str();
    let n = text.unicode_len();
    let mut r = String::new();
    push_char(&mut r, '0');
    push_char(&mut r, 'b');
    let mut i: usize = 0;
    while i < n
        invariant
            n == text@.len(),
            text@ == p.pattern@,
            i <= n,
            r@ == seq!['0', 'b'] + Seq::new(
                i as nat,
                |k: int|
                    if p.current@.contains(k as usize) {
                        '1'
                    } else {
                        '0'
                    },
            ),
        decreases n - i,
    {
        let hit = vec_contains_usize(&p.current, i);
        push_char(
            &mut r,
            if hit {
                '1'
            } else {
                '0'
            },
        );
        proof {
            assert(r@ =~= seq!['0', 'b'] + Seq::new(
                (i + 1) as nat,
                |k: int|
                    if p.current@.contains(k as usize) {
                        '1'
                    } else {
                        '0'
                    },
            ));
        }
        i += 1;
    }
    proof {
        assert(r@ =~= proc_mask_spec(p.pattern@, p.current@));
    }
    r
}

/// The selector's right-shift offset: the number of pattern positions
/// strictly after the last recorded position.
pub fn proc_offset(p: &Pattern) -> (r: usize)
    requires
        p.wf(),
        p.current@.len() > 0,
    ensures
        r == p.pattern@.len() - 1 - seq_max(p.current@),
{
    let text = p.pattern.as_str();
    let n = text.unicode_len();
    let m = p.current.len();
    let mut max: usize = p.current[0];
    let mut k: usize = 1;
    proof {
        assert(p.current@.take(1) =~= seq![p.current@[0]]);
    }
    while k < m
        invariant
            m == p.current@.len(),
            1 <= k <= m,
            max == seq_max(p.current@.take(k as int)),
        decreases m - k,
    {
        proof {
            assert(p.current@.take(k + 1).drop_last() =~= p.current@.take(k as int));
            assert(p.current@.take(k + 1).last() == p.current@[k as int]);
        }
        let c = p.current[k];
        if c > max {
            max = c;
        }
        k += 1;
    }
    proof {
        assert(p.current@.take(m as int) =~= p.current@);
        lemma_seq_max(p.current@);
    }
    n - max - 1
}

/// Render the default mask of a stripped pattern as a binary literal:
/// `1` exactly at the positions fixed to a literal `0` or `1`.
pub fn proc_default_mask(p: &Pattern) -> (r: String)
    ensures
        r@ == proc_marked_spec(p.pattern@, crate::calc::BitSelector::LiteralBits),
{
    proc_marked(&p.pattern, crate::calc::BitSelector::LiteralBits)
}

/// Render the default value of a stripped pattern as a binary literal:
/// `1` exactly at the positions fixed to a literal `1`.
pub fn proc_default_value(p: &Pattern) -> (r: String)
    ensures
        r@ == proc_marked_spec(p.pattern@, crate::calc::BitSelector::OneBits),
{
    proc_marked(&p.pattern, crate::calc::BitSelector::OneBits)
}

/// Build a fixed-bit rendering over a stripped pattern.
fn proc_marked(pat: &String, s: crate::calc::BitSelector) -> (r: String)
    ensures
        r@ == proc_marked_spec(pat@, s),
{
    let text = pat.as_str();
    let n = text.unicode_len();
    let mut r = String::new();
    push_char(&mut r, '0');
    push_char(&mut r, 'b');
    let mut i: usize = 0;
    while i < n
        invariant
            n == text@.len(),
            text@ == pat@,
            i <= n,
            r@ == seq!['0', 'b'] + Seq::new(
                i as nat,
                |k: int|
                    if crate::calc::selects(s, pat@[k]) {
                        '1'
                    } else {
                        '0'
                    },
            ),
        decreases n - i,
    {
        let c = text.get_char(i);
        let hit = crate::calc::selects_char(s, c);
        push_char(
            &mut r,
            if hit {
                '1'
            } else {
                '0'
            },
        );
        proof {
            assert(r@ =~= seq!['0', 'b'] + Seq::new(
                (i + 1) as nat,
                |k: int|
                    if crate::calc::selects(s, pat@[k]) {
                        '1'
                    } else {
                        '0'
                    },
            ));
        }
        i += 1;
    }
    proof {
        assert(r@ =~= proc_marked_spec(pat@, s));
    }
    r
}

/// Whether `v` holds `x`.
fn vec_contains_usize(v: &Vec<usize>, x: usize) -> (r: bool)
    ensures
        r == v@.contains(x),
{
    let n = v.len();
    let mut i: usize = 0;
    while i < n
        invariant
            n == v@.len(),
            i <= n,
            forall|j: int| 0 <= j < i ==> v@[j] != x,
        decreases n - i,
    {
        if v[i] == x {
            return true;
        }
        i += 1;
    }
    false
}

/// `s` with separators and whitespace removed.
fn strip_string(s: &String) -> (r: String)
    ensures
        r@ == stripped(s@),
{
    let text = s.as_str();
    let n = text.unicode_len();
    let mut r = String::new();
    let mut i: usize = 0;
    while i < n
        invariant
            n == text@.len(),
            i <= n,
            r@ == stripped(text@.take(i as int)),
        decreases n - i,
    {
        let c = text.get_char(i);
        proof {
            lemma_stripped_push(text@.take(i as int), text@[i as int]);
            assert(text@.take(i as int).push(text@[i as int]) =~= text@.take(i + 1));
        }
        let keep = !(c == '_' || c == ' ' || c == '\t' || c == '\n' || c == '\r');
        if keep {
            push_char(&mut r, c);
        }
        i += 1;
    }
    proof {
        assert(text@.take(n as int) =~= text@);
    }
    r
}

/// The indices at which `c` occurs in `s`, in increasing order.
fn positions_vec(s: &str, c: char) -> (r: Vec<usize>)
    ensures
        r@ == positions_of(s@, c),
        s@.len() <= usize::MAX,
{
    let n = s.unicode_len();
    let mut r: Vec<usize> = Vec::new();
    let mut i: usize = 0;
    while i < n
        invariant
            n == s@.len(),
            i <= n,
            r@ == positions_of(s@.take(i as int), c),
        decreases n - i,
    {
        proof {
            assert(s@.take(i + 1).drop_last() =~= s@.take(i as int));
            assert(s@.take(i + 1).last() == s@[i as int]);
        }
        if s.get_char(i) == c {
            r.push(i);
        }
        i += 1;
    }
    proof {
        assert(s@.take(n as int) =~= s@);
    }
    r
}

} // verus!
