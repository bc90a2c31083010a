use vstd::prelude::*;

verus! {

use crate::calc::BitSelector;
use crate::pattern::{
    canonical_of, distinct_chars, marked_string_spec, parse_outcome, trailing_without, Pattern,
    ScanOut,
};
use crate::strutil::{dec_str, push_char, push_decimal};
use crate::tokens::DeriveDecl;
use vstd::string::{StrSliceExecFns, StringExecFns};

// The code generator: from a compiled pattern to the source text of the
// accessor helpers a generated bitfield type carries.  The emitted helpers
// answer, for each token, its mask and offset, and for the whole pattern
// its default mask and default value, all as literals computed here.

/// One match arm of the emitted mask helper: the token quoted, then its
/// mask as a binary literal over the raw pattern.
pub open spec fn mask_case_spec(orig: Seq<char>, t: char) -> Seq<char> {
    "            \""@ + seq![t] + "\" => "@ + marked_string_spec(orig, BitSelector::TokenBits(t))
        + ",\n"@
}

/// The mask helper's match arms, one per token, in order.
pub open spec fn mask_cases_spec(orig: Seq<char>, toks: Seq<char>) -> Seq<char>
    decreases toks.len(),
{
    if toks.len() == 0 {
        Seq::empty()
    } else {
        mask_cases_spec(orig, toks.drop_last()) + mask_case_spec(orig, toks.last())
    }
}

/// One match arm of the emitted offset helper: the token quoted, then its
/// right-shift offset in decimal.
pub open spec fn offset_case_spec(trimmed: Seq<char>, t: char) -> Seq<char> {
    "            \""@ + seq![t] + "\" => "@ + dec_str(trailing_without(trimmed, t)) + ",\n"@
}

/// The offset helper's match arms, one per token, in order.
pub open spec fn offset_cases_spec(trimmed: Seq<char>, toks: Seq<char>) -> Seq<char>
    decreases toks.len(),
{
    if toks.len() == 0 {
        Seq::empty()
    } else {
        offset_cases_spec(trimmed, toks.drop_last()) + offset_case_spec(trimmed, toks.last())
    }
}

/// The emitted mask helper: a match from token text to mask literal.  An
/// unknown character falls back to the empty mask, as the mask calculator
/// does.
pub open spec fn gen_mask_spec(size: Seq<char>, orig: Seq<char>, toks: Seq<char>) -> Seq<char> {
    "    pub fn __bitrange_get_mask(c: &str) -> "@ + size + " {\n        match c {\n"@
        + mask_cases_spec(orig, toks) + "            _ => 0,\n        }\n    }\n"@
}

/// The emitted offset helper: a match from token text to decimal offset.
/// An unknown character falls back to the whole canonical length, as the
/// offset calculator does.
pub open spec fn gen_offset_spec(trimmed: Seq<char>, toks: Seq<char>) -> Seq<char> {
    "    pub fn __bitrange_get_offset(c: &str) -> usize {\n        match c {\n"@
        + offset_cases_spec(trimmed, toks) + "            _ => "@ + dec_str(trimmed.len())
        + ",\n        }\n    }\n"@
}

/// The emitted default-mask helper: the default mask as a binary literal.
pub open spec fn gen_default_mask_spec(size: Seq<char>, orig: Seq<char>) -> Seq<char> {
    "    pub fn __bitrange_get_default_mask() -> "@ + size + " {\n        "@ + marked_string_spec(
        orig,
        BitSelector::LiteralBits,
    ) + "\n    }\n"@
}

/// The emitted default-value helper: the default value as a binary
/// literal.
pub open spec fn gen_default_value_spec(size: Seq<char>, orig: Seq<char>) -> Seq<char> {
    "    pub fn __bitrange_get_default_value() -> "@ + size + " {\n        "@ + marked_string_spec(
        orig,
        BitSelector::OneBits,
    ) + "\n    }\n"@
}

/// The whole emitted impl block for one declaration.
pub open spec fn bitrange_text_spec(ident: Seq<char>, orig: Seq<char>, size: Seq<char>) -> Seq<
    char,
> {
    let trimmed = canonical_of(orig);
    let toks = distinct_chars(trimmed);
    "impl "@ + ident + " {\n"@ + gen_mask_spec(size, orig, toks) + gen_offset_spec(trimmed, toks)
        + gen_default_mask_spec(size, orig) + gen_default_value_spec(size, orig) + "}\n"@
}

/// Emit the mask helper of a pattern.
pub fn generate_mask(pattern: &Pattern) -> (r: String)
    ensures
        r@ == gen_mask_spec(pattern.size@, pattern.original_pattern@, pattern.tokens@),
{
    let mut r = String::new();
    r.append("    pub fn __bitrange_get_mask(c: &str) -> ");
    r.append(pattern.size.as_str());
    r.append(" {\n        match c {\n");
    let ghost header: Seq<char> = r@;
    let n = pattern.tokens.len();
    let mut i: usize = 0;
    proof {
        assert(pattern.tokens@.take(0).len() == 0);
        assert(r@ =~= header + mask_cases_spec(pattern.original_pattern@, pattern.tokens@.take(0)));
    }
    while i < n
        invariant
            n == pattern.tokens@.len(),
            i <= n,
            header == "    pub fn __bitrange_get_mask(c: &str) -> "@ + pattern.size@
                + " {\n        match c {\n"@,
            r@ == header + mask_cases_spec(
                pattern.original_pattern@,
                pattern.tokens@.take(i as int),
            ),
        decreases n - i,
    {
        let t = pattern.tokens[i];
        r.append("            \"");
        push_char(&mut r, t);
        r.append("\" => ");
        let m = pattern.get_token_mask(t);
        r.append(m.as_str());
        r.append(",\n");
        proof {
            assert(pattern.tokens@.take(i + 1).drop_last() =~= pattern.tokens@.take(i as int));
            assert(pattern.tokens@.take(i + 1).last() == pattern.tokens@[i as int]);
            assert(r@ =~= header + mask_cases_spec(
                pattern.original_pattern@,
                pattern.tokens@.take(i + 1),
            ));
        }
        i += 1;
    }
    r.append("            _ => 0,\n        }\n    }\n");
    proof {
        assert(pattern.tokens@.take(n as int) =~= pattern.tokens@);
        assert(r@ =~= gen_mask_spec(pattern.size@, pattern.original_pattern@, pattern.tokens@));
    }
    r
}

/// Emit the offset helper of a pattern.
pub fn generate_offset(pattern: &Pattern) -> (r: String)
    ensures
        r@ == gen_offset_spec(pattern.trimmed_pattern@, pattern.tokens@),
{
    let mut r = String::new();
    r.append("    pub fn __bitrange_get_offset(c: &str) -> usize {\n        match c {\n");
    let ghost header: Seq<char> = r@;
    let n = pattern.tokens.len();
    let mut i: usize = 0;
    proof {
        assert(pattern.tokens@.take(0).len() == 0);
        assert(r@ =~= header + offset_cases_spec(
            pattern.trimmed_pattern@,
            pattern.tokens@.take(0),
        ));
    }
    while i < n
        invariant
            n == pattern.tokens@.len(),
            i <= n,
            header == "    pub fn __bitrange_get_offset(c: &str) -> usize {\n        match c {\n"@,
            r@ == header + offset_cases_spec(
                pattern.trimmed_pattern@,
                pattern.tokens@.take(i as int),
            ),
        decreases n - i,
    {
        let t = pattern.tokens[i];
        r.append("            \"");
        push_char(&mut r, t);
        r.append("\" => ");
        let o = pattern.get_token_offset(t);
        push_decimal(&mut r, o as u64);
        r.append(",\n");
        proof {
            assert(pattern.tokens@.take(i + 1).drop_last() =~= pattern.tokens@.take(i as int));
            assert(pattern.tokens@.take(i + 1).last() == pattern.tokens@[i as int]);
            assert(r@ =~= header + offset_cases_spec(
                pattern.trimmed_pattern@,
                pattern.tokens@.take(i + 1),
            ));
        }
        i += 1;
    }
    r.append("            _ => ");
    let len = pattern.trimmed_pattern.as_str().unicode_len();
    push_decimal(&mut r, len as u64);
    r.append(",\n        }\n    }\n");
    proof {
        assert(pattern.tokens@.take(n as int) =~= pattern.tokens@);
        assert(r@ =~= gen_offset_spec(pattern.trimmed_pattern@, pattern.tokens@));
    }
    r
}

/// Emit the default-mask helper of a pattern.
pub fn generate_default_mask(pattern: &Pattern) -> (r: String)
    ensures
        r@ == gen_default_mask_spec(pattern.size@, pattern.original_pattern@),
{
    let mut r = String::new();
    r.append("    pub fn __bitrange_get_default_mask() -> ");
    r.append(pattern.size.as_str());
    r.append(" {\n        ");
    let m = pattern.get_default_mask();
    r.append(m.as_str());
    r.append("\n    }\n");
    proof {
        assert(r@ =~= gen_default_mask_spec(pattern.size@, pattern.original_pattern@));
    }
    r
}

/// Emit the default-value helper of a pattern.
pub fn generate_default_value(pattern: &Pattern) -> (r: String)
    ensures
        r@ == gen_default_value_spec(pattern.size@, pattern.original_pattern@),
{
    let mut r = String::new();
    r.append("    pub fn __bitrange_get_default_value() -> ");
    r.append(pattern.size.as_str());
    r.append(" {\n        ");
    let m = pattern.get_default_value();
    r.append(m.as_str());
    r.append("\n    }\n");
    proof {
        assert(r@ =~= gen_default_value_spec(pattern.size@, pattern.original_pattern@));
    }
    r
}

/// Compile a declaration and emit the whole impl block its bitfield type
/// carries: the mask, offset, default-mask and default-value helpers.
pub fn bitrange(input: &DeriveDecl) -> (r: Result<String, String>)
    ensures
        match parse_outcome(*input) {
            ScanOut::BadPunct => r matches Err(m) && m@ == "expected `=` after the attribute name"@,
            ScanOut::BadLiteral => r matches Err(m) && m@ == "expected a literal attribute value"@,
            ScanOut::Found(o, s) => {
                if canonical_of(o).len() == 0 {
                    r matches Err(m) && m@ == "missing attribute `BitrangeMask`"@
                } else if s.len() == 0 {
                    r matches Err(m) && m@ == "missing attribute `BitrangeSize`"@
                } else {
                    r matches Ok(text) && text@ == bitrange_text_spec(input.ident@, o, s)
                }
            },
        },
{
    let pattern = match Pattern::from_stream(input) {
        Ok(p) => p,
        Err(m) => {
            return Err(m);
        },
    };
    let mut r = String::new();
    r.append("impl ");
    r.append(pattern.struct_name.as_str());
    r.append(" {\n");
    let gm = generate_mask(&pattern);
    r.append(gm.as_str());
    let go = generate_offset(&pattern);
    r.append(go.as_str());
    let gdm = generate_default_mask(&pattern);
    r.append(gdm.as_str());
    let gdv = generate_default_value(&pattern);
    r.append(gdv.as_str());
    r.append("}\n");
    proof {
        assert(r@ =~= bitrange_text_spec(
            input.ident@,
            pattern.original_pattern@,
            pattern.size@,
        ));
    }
    Ok(r)
}

} // verus!
