use vstd::prelude::*;

verus! {

use crate::accessor::{
    get_bits, get_bits_spec, lemma_set_preserves_fixed, set_bits, set_bits_spec,
};
use crate::calc::{
    default_mask_spec, default_value_spec, lemma_default_value_in_mask,
    lemma_mask_default_disjoint, token_mask_spec,
};
use crate::pattern::{trailing_without, Pattern};
use crate::{DeclError, Error};
use vstd::string::StrSliceExecFns;

// The declaration surface and the validated value instance.
//
// A `BitrangeSpec` is compiled once, when a bitfield type is declared, and
// is immutable thereafter.  Instances are created only through the
// validated constructor or the default constructor, and mutated only
// through a field's setter, which cannot disturb the fixed bits.

/// One named accessor request: the token selecting the field's bits, the
/// getter's name, and optionally a setter's name.
pub struct Field {
    pub token: char,
    pub getter: String,
    pub setter: Option<String>,
}

/// A field's compiled accessor data: its mask and right-shift offset.
pub struct FieldSpec {
    pub mask: u64,
    pub offset: usize,
}

/// A whole compiled declaration: the pattern, the storage width in bits,
/// the requested fields, and the precomputed default mask and value.
pub struct BitrangeSpec {
    pub storage_width: usize,
    pub pattern: Pattern,
    pub fields: Vec<Field>,
    pub default_mask: u64,
    pub default_value: u64,
}

impl BitrangeSpec {
    /// Well-formedness: the pattern is well formed and fits the storage
    /// width, every requested field token occurs in it, and the default
    /// mask and value are the pattern's derived integers.
    pub open spec fn wf(self) -> bool {
        &&& self.pattern.wf()
        &&& self.pattern.canon().len() <= self.storage_width <= 64
        &&& forall|k: int|
            0 <= k < self.fields@.len() ==> self.pattern.has_token(#[trigger] self.fields@[k].token)
        &&& self.default_mask == default_mask_spec(self.pattern.canon())
        &&& self.default_value == default_value_spec(self.pattern.canon())
    }

    /// Compile a declaration.  Fails with `BadWidth` when the storage
    /// width cannot hold the pattern or exceeds 64 bits, and with
    /// `UnknownToken` when a requested field token does not occur in the
    /// pattern; succeeds exactly otherwise.
    pub fn new(storage_width: usize, pattern: Pattern, fields: Vec<Field>) -> (r: Result<
        BitrangeSpec,
        DeclError,
    >)
        requires
            pattern.wf(),
        ensures
            r is Ok <==> {
                &&& pattern.canon().len() <= storage_width <= 64
                &&& forall|k: int|
                    0 <= k < fields@.len() ==> pattern.has_token(#[trigger] fields@[k].token)
            },
            r matches Ok(b) ==> {
                &&& b.wf()
                &&& b.pattern == pattern
                &&& b.fields == fields
                &&& b.storage_width == storage_width
            },
            r is Err ==> (r == Err::<BitrangeSpec, DeclError>(DeclError::BadWidth) <==> !(
            pattern.canon().len() <= storage_width <= 64)),
    {
        let width_ok = storage_width <= 64 && pattern.trimmed_pattern.as_str().unicode_len()
            <= storage_width;
        if !width_ok {
            return Err(DeclError::BadWidth);
        }
        let n = fields.len();
        let mut k: usize = 0;
        while k < n
            invariant
                n == fields@.len(),
                k <= n,
                pattern.canon().len() <= storage_width <= 64,
                forall|j: int| 0 <= j < k ==> pattern.has_token(#[trigger] fields@[j].token),
            decreases n - k,
        {
            if !pattern.contains_token(fields[k].token) {
                return Err(DeclError::UnknownToken);
            }
            k += 1;
        }
        let default_mask = pattern.default_mask_of();
        let default_value = pattern.default_value_of();
        Ok(BitrangeSpec { storage_width, pattern, fields, default_mask, default_value })
    }

    /// The compiled accessor data of `token`: its mask and offset.  The
    /// mask never overlaps the default mask, so a setter built from it
    /// cannot disturb the fixed bits.  Fails exactly when `token` owns no
    /// entry in the token-position mapping.
    pub fn field(&self, token: char) -> (r: Result<FieldSpec, DeclError>)
        requires
            self.wf(),
        ensures
            r is Ok <==> self.pattern.has_token(token),
            r matches Ok(f) ==> {
                &&& f.mask == token_mask_spec(self.pattern.canon(), token)
                &&& f.offset == trailing_without(self.pattern.canon(), token)
                &&& f.offset < self.pattern.canon().len()
                &&& f.mask & self.default_mask == 0
            },
            r is Err ==> r == Err::<FieldSpec, DeclError>(DeclError::UnknownToken),
    {
        let mask = match self.pattern.mask_of(token) {
            Ok(m) => m,
            Err(e) => {
                return Err(e);
            },
        };
        let offset = match self.pattern.offset_of(token) {
            Ok(o) => o,
            Err(e) => {
                return Err(e);
            },
        };
        proof {
            lemma_mask_default_disjoint(self.pattern.canon(), token);
        }
        Ok(FieldSpec { mask, offset })
    }
}

/// A validated value instance: one unsigned integer whose fixed bits are
/// known to hold their required values.  Created only through `from` or
/// `default_new`, and mutated only through `set_field`.
pub struct BitField {
    bits: u64,
    default_mask: Ghost<u64>,
    default_value: Ghost<u64>,
}

impl BitField {
    /// The raw stored bits.
    pub closed spec fn bits_spec(self) -> u64 {
        self.bits
    }

    /// The default mask this instance was validated against.
    pub closed spec fn dm_spec(self) -> u64 {
        self.default_mask@
    }

    /// The default value this instance was validated against.
    pub closed spec fn dv_spec(self) -> u64 {
        self.default_value@
    }

    /// The instance invariant: at the fixed positions, the stored bits
    /// hold exactly the required values.
    pub open spec fn wf(self) -> bool {
        self.bits_spec() & self.dm_spec() == self.dv_spec()
    }

    /// Whether this instance was validated against the given declaration.
    pub open spec fn valid_for(self, spec: BitrangeSpec) -> bool {
        self.dm_spec() == spec.default_mask && self.dv_spec() == spec.default_value
    }

    /// The raw stored bits.
    pub fn bits(&self) -> (r: u64)
        ensures
            r == self.bits_spec(),
    {
        self.bits
    }

    /// The validated constructor: accept `bits` exactly when the fixed
    /// positions hold their required values, and otherwise report what was
    /// required and what was found there.  A deployment that prefers
    /// failing fast aborts on the returned mismatch instead of inspecting
    /// it; the record itself carries everything either policy needs.
    pub fn from(spec: &BitrangeSpec, bits: u64) -> (r: Result<BitField, Error<u64>>)
        requires
            spec.wf(),
        ensures
            r is Ok <==> bits & spec.default_mask == spec.default_value,
            r matches Ok(v) ==> v.bits_spec() == bits && v.wf() && v.valid_for(*spec),
            r matches Err(e) ==> e.expected == spec.default_value && e.provided == bits
                & spec.default_mask,
    {
        if bits & spec.default_mask == spec.default_value {
            Ok(
                BitField {
                    bits,
                    default_mask: Ghost(spec.default_mask),
                    default_value: Ghost(spec.default_value),
                },
            )
        } else {
            Err(Error::invalid_bits(spec.default_value, bits & spec.default_mask))
        }
    }

    /// The default constructor: an instance holding exactly the default
    /// value, which is valid by construction.
    pub fn default_new(spec: &BitrangeSpec) -> (r: BitField)
        requires
            spec.wf(),
        ensures
            r.bits_spec() == spec.default_value,
            r.wf(),
            r.valid_for(*spec),
    {
        proof {
            lemma_default_value_in_mask(spec.pattern.canon());
        }
        BitField {
            bits: spec.default_value,
            default_mask: Ghost(spec.default_mask),
            default_value: Ghost(spec.default_value),
        }
    }

    /// Read a field through its compiled accessor data.
    pub fn get_field(&self, f: &FieldSpec) -> (r: u64)
        requires
            f.offset < 64,
        ensures
            r == get_bits_spec(self.bits_spec(), f.mask, f.offset as u64),
    {
        get_bits(self.bits, f.mask, f.offset as u64)
    }

    /// Write a field through its compiled accessor data.  The field's mask
    /// must avoid the fixed positions; the write then preserves validity.
    /// Bits of `value` beyond the field's width are silently truncated.
    pub fn set_field(&mut self, f: &FieldSpec, value: u64)
        requires
            old(self).wf(),
            f.offset < 64,
            f.mask & old(self).dm_spec() == 0,
        ensures
            final(self).bits_spec() == set_bits_spec(
                old(self).bits_spec(),
                value,
                f.mask,
                f.offset as u64,
            ),
            final(self).wf(),
            final(self).dm_spec() == old(self).dm_spec(),
            final(self).dv_spec() == old(self).dv_spec(),
    {
        proof {
            lemma_set_preserves_fixed(
                self.bits,
                value,
                f.mask,
                f.offset as u64,
                self.default_mask@,
            );
        }
        self.bits = set_bits(self.bits, value, f.mask, f.offset as u64);
    }
}

} // verus!
