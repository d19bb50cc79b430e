//! Represent values: a concrete integer sample paired with the structure
//! used to interpret it.

use vstd::arithmetic::div_mod::lemma_fundamental_div_mod_converse;
use vstd::arithmetic::mul::lemma_mul_is_distributive_sub_other_way;
use vstd::arithmetic::power2::lemma_pow2_adds;
use vstd::arithmetic::power2::lemma_pow2_pos;
use vstd::arithmetic::power2::pow2;
use vstd::bits::lemma_usize_low_bits_mask_is_mod;
use vstd::bits::lemma_usize_pow2_no_overflow;
use vstd::bits::lemma_usize_shl_is_mul;
use vstd::bits::lemma_usize_shr_is_div;
use vstd::bits::low_bits_mask;
use vstd::prelude::*;

use crate::types::field_range;
use crate::types::Structure;
use crate::types::StructureView;

verus! {

/// The unsigned value held by the `width` bits of `data` that start at bit
/// offset `low`: shift right by `low`, then keep the low `width` bits.
pub open spec fn extract_bits(data: usize, low: nat, width: nat) -> nat {
    (data as nat / pow2(low)) % pow2(width)
}

/// Whether the bit range that a lookup for `name` resolves to stays within
/// the host integer: the high offset below the word size and the width
/// strictly smaller than it, as extraction shifts by the low offset and
/// builds a mask of `width` ones. A lookup that fails imposes nothing.
pub open spec fn range_in_word(fields: Seq<crate::types::FieldView>, name: Seq<char>) -> bool {
    match field_range(fields, name) {
        None => true,
        Some(hl) => 0 <= hl.0 < usize::BITS && hl.0 + 1 - hl.1 < usize::BITS,
    }
}

/// Mask correctness: with every bit of the sample set, extracting a field of
/// width `width` yields exactly 2^width - 1 (0 at the boundary `width` = 0),
/// however the field is placed - bits outside the field never leak in.
pub proof fn lemma_extract_all_ones(low: nat, width: nat)
    requires
        low + width <= usize::BITS,
    ensures
        extract_bits(usize::MAX, low, width) == pow2(width) - 1,
{
    let b: nat = usize::BITS as nat;
    let rest: nat = (b - low) as nat;
    vstd::layout::unsigned_int_max_values();
    lemma_pow2_pos(low);
    lemma_pow2_pos(width);
    lemma_pow2_pos(rest);
    lemma_pow2_pos((rest - width) as nat);
    assert(pow2(rest) * pow2(low) == pow2(b)) by {
        lemma_pow2_adds(rest, low);
    }
    assert((pow2(rest) - 1) * pow2(low) == pow2(b) - pow2(low)) by {
        lemma_mul_is_distributive_sub_other_way(
            pow2(low) as int,
            pow2(rest) as int,
            1,
        );
    }
    lemma_fundamental_div_mod_converse(
        (pow2(b) - 1) as int,
        pow2(low) as int,
        (pow2(rest) - 1) as int,
        (pow2(low) - 1) as int,
    );
    assert(usize::MAX as nat / pow2(low) == pow2(rest) - 1);
    assert(pow2((rest - width) as nat) * pow2(width) == pow2(rest)) by {
        lemma_pow2_adds((rest - width) as nat, width);
    }
    assert((pow2((rest - width) as nat) - 1) * pow2(width) == pow2(rest) - pow2(width)) by {
        lemma_mul_is_distributive_sub_other_way(
            pow2(width) as int,
            pow2((rest - width) as nat) as int,
            1,
        );
    }
    lemma_fundamental_div_mod_converse(
        (pow2(rest) - 1) as int,
        pow2(width) as int,
        (pow2((rest - width) as nat) - 1) as int,
        (pow2(width) - 1) as int,
    );
}

/// A mask with exactly `bits` low-order ones, used to isolate a field's bits
/// after shifting.
fn mask(bits: usize) -> (m: usize)
    requires
        bits < usize::BITS,
    ensures
        m == low_bits_mask(bits as nat),
{
    proof {
        lemma_usize_pow2_no_overflow(bits as nat);
        lemma_usize_shl_is_mul(1usize, bits);
    }
    (1usize << bits) - 1
}

/// A concrete integer sample paired with the [`Structure`] used to interpret
/// it. Immutable once constructed; a new sample requires a new Value.
///
/// The sample's own bit width is not tracked or checked against the
/// structure's size; bits of the sample beyond the structure's span are
/// simply never addressed.
#[derive(Debug)]
pub struct Value {
    data: usize,
    structure: Structure,
}

/// The mathematical content of a [`Value`].
pub struct ValueView {
    /// The integer sample.
    pub data: usize,
    /// The structure that gives the sample its meaning.
    pub structure: StructureView,
}

impl View for Value {
    type V = ValueView;

    closed spec fn view(&self) -> ValueView {
        ValueView { data: self.data, structure: self.structure@ }
    }
}

impl Value {
    /// Wrap a sample integer and the structure describing its layout.
    pub fn new(data: usize, structure: Structure) -> (v: Value)
        ensures
            v@.data == data,
            v@.structure == structure@,
    {
        Value { data, structure }
    }

    /// Extract the named field's bits as an unsigned integer: resolve the
    /// field's bit range, shift the sample right by the low offset and mask
    /// to the field's width. `None` if no field carries the name.
    pub fn get_integer(&self, field_name: &str) -> (r: Option<usize>)
        requires
            range_in_word(self@.structure.fields, field_name@),
        ensures
            r is Some <==> crate::types::has_field(self@.structure.fields, field_name@),
            match field_range(self@.structure.fields, field_name@) {
                None => r is None,
                Some(hl) => r matches Some(x) && x == extract_bits(
                    self@.data,
                    hl.1 as nat,
                    (hl.0 + 1 - hl.1) as nat,
                ),
            },
    {
        match self.structure.get_range(field_name) {
            None => None,
            Some((high, low)) => {
                let width: usize = high + 1 - low;
                if width == 0 {
                    proof {
                        vstd::arithmetic::power2::lemma_pow2_pos(low as nat);
                        assert(pow2(0) == 1) by {
                            vstd::arithmetic::power2::lemma2_to64();
                        }
                    }
                    Some(0)
                } else {
                    let shifted: usize = self.data >> low;
                    let m: usize = mask(width);
                    proof {
                        lemma_usize_shr_is_div(self.data, low);
                        lemma_usize_low_bits_mask_is_mod(shifted, width as nat);
                        lemma_usize_pow2_no_overflow(width as nat);
                    }
                    Some(shifted & m)
                }
            },
        }
    }

    /// Extract the named field as a boolean. `Some(true)` exactly when the
    /// extracted integer equals 1: any other extracted value, including
    /// values greater than 1, yields `Some(false)`. `None` if no field
    /// carries the name.
    pub fn get_bool(&self, field_name: &str) -> (r: Option<bool>)
        requires
            range_in_word(self@.structure.fields, field_name@),
        ensures
            r is Some <==> crate::types::has_field(self@.structure.fields, field_name@),
            match field_range(self@.structure.fields, field_name@) {
                None => r is None,
                Some(hl) => r matches Some(b) && b == (extract_bits(
                    self@.data,
                    hl.1 as nat,
                    (hl.0 + 1 - hl.1) as nat,
                ) == 1),
            },
    {
        match self.get_integer(field_name) {
            None => None,
            Some(v) => Some(v == 1),
        }
    }
}

/// Queries are idempotent: the outcome of every lookup and extraction is a
/// function of the (immutable) structure and sample alone, so repeated
/// queries return identical results. The query contracts pin each result to
/// the spec-level outcomes below, which agree whenever the views agree.
pub proof fn lemma_queries_deterministic(v1: Value, v2: Value, name: Seq<char>)
    requires
        v1@ == v2@,
    ensures
        crate::types::first_field(v1@.structure.fields, name) == crate::types::first_field(
            v2@.structure.fields,
            name,
        ),
        field_range(v1@.structure.fields, name) == field_range(v2@.structure.fields, name),
        forall|low: nat, width: nat|
            extract_bits(v1@.data, low, width) == extract_bits(v2@.data, low, width),
{
}

} // verus!
