//! Column kernels that the arrow2 crate computes: hashing, remainder,
//! comparison with a constant, and filtering by a mask.

use crate::text::string_views;
use vstd::prelude::*;

verus! {

/// The elements of `values` at the positions where `mask` is true, in order.
pub open spec fn filtered<T>(values: Seq<T>, mask: Seq<bool>) -> Seq<T>
    decreases values.len(),
{
    if values.len() == 0 {
        Seq::empty()
    } else {
        let rest = filtered(values.drop_last(), mask.drop_last());
        if mask.last() {
            rest.push(values.last())
        } else {
            rest
        }
    }
}

/// The 64-bit hash that `arrow2::compute::hash::hash_primitive` gives to an
/// integer. The kernel hashes each element on its own, with a hasher built
/// from fixed seeds.
pub uninterp spec fn int_hash(v: i64) -> u64;

/// The 64-bit hash that `arrow2::compute::hash::hash_utf8` gives to a
/// string.
pub uninterp spec fn str_hash(s: Seq<char>) -> u64;

/// The 64-bit hash that `arrow2::compute::hash::hash_boolean` gives to a
/// boolean.
pub uninterp spec fn bool_hash(b: bool) -> u64;

/// Element-wise hash of integers by `arrow2::compute::hash::hash_primitive`:
/// one hash per element, in order, each depending on its element alone.
#[verifier::external_body]
pub(crate) fn hash_ints(values: &Vec<i64>) -> (hashes: Vec<u64>)
    ensures
        hashes@.len() == values@.len(),
        forall|i: int| 0 <= i < values@.len() ==> #[trigger] hashes@[i] == int_hash(values@[i]),
{
    let array = arrow2::array::PrimitiveArray::<i64>::from_vec(values.clone());
    arrow2::compute::hash::hash_primitive(&array).values().to_vec()
}

/// Element-wise hash of strings by `arrow2::compute::hash::hash_utf8`: one
/// hash per element, in order, each depending on its element alone.
#[verifier::external_body]
pub(crate) fn hash_strs(values: &Vec<String>) -> (hashes: Vec<u64>)
    ensures
        hashes@.len() == values@.len(),
        forall|i: int| 0 <= i < values@.len() ==> #[trigger] hashes@[i] == str_hash(values@[i]@),
{
    let array = arrow2::array::Utf8Array::<i64>::from_slice(values);
    arrow2::compute::hash::hash_utf8(&array).values().to_vec()
}

/// Element-wise hash of booleans by `arrow2::compute::hash::hash_boolean`:
/// one hash per element, in order, each depending on its element alone.
#[verifier::external_body]
pub(crate) fn hash_bools(values: &Vec<bool>) -> (hashes: Vec<u64>)
    ensures
        hashes@.len() == values@.len(),
        forall|i: int| 0 <= i < values@.len() ==> #[trigger] hashes@[i] == bool_hash(values@[i]),
{
    let array = arrow2::array::BooleanArray::from_slice(values);
    arrow2::compute::hash::hash_boolean(&array).values().to_vec()
}

/// Element-wise remainder by `arrow2`'s `ArrayRem::rem` with a constant
/// divisor, which must not be zero.
#[verifier::external_body]
pub(crate) fn rem_scalar(values: &Vec<u64>, divisor: u64) -> (rems: Vec<u64>)
    requires
        divisor != 0,
    ensures
        rems@.len() == values@.len(),
        forall|i: int| 0 <= i < values@.len() ==> #[trigger] rems@[i] == values@[i] % divisor,
{
    let array = arrow2::array::PrimitiveArray::<u64>::from_vec(values.clone());
    arrow2::compute::arithmetics::ArrayRem::rem(&array, &divisor).values().to_vec()
}

/// Element-wise equality with a constant by
/// `arrow2::compute::comparison::primitive::eq_scalar`.
#[verifier::external_body]
pub(crate) fn eq_scalar(values: &Vec<u64>, wanted: u64) -> (mask: Vec<bool>)
    ensures
        mask@.len() == values@.len(),
        forall|i: int| 0 <= i < values@.len() ==> #[trigger] mask@[i] == (values@[i] == wanted),
{
    let array = arrow2::array::PrimitiveArray::<u64>::from_vec(values.clone());
    arrow2::compute::comparison::primitive::eq_scalar(&array, wanted).values_iter().collect()
}

/// The integers at the positions where `mask` is true, by
/// `arrow2::compute::filter::filter`. Values and mask must be equally long.
#[verifier::external_body]
pub(crate) fn filter_ints(values: &Vec<i64>, mask: &Vec<bool>) -> (kept: Vec<i64>)
    requires
        values@.len() == mask@.len(),
    ensures
        kept@ == filtered(values@, mask@),
{
    let array = arrow2::array::PrimitiveArray::<i64>::from_vec(values.clone());
    let mask = arrow2::array::BooleanArray::from_slice(mask);
    let kept = arrow2::compute::filter::filter(&array, &mask).unwrap();
    kept.as_any().downcast_ref::<arrow2::array::PrimitiveArray<i64>>().unwrap().values().to_vec()
}

/// The strings at the positions where `mask` is true, by
/// `arrow2::compute::filter::filter`. Values and mask must be equally long.
#[verifier::external_body]
pub(crate) fn filter_strs(values: &Vec<String>, mask: &Vec<bool>) -> (kept: Vec<String>)
    requires
        values@.len() == mask@.len(),
    ensures
        string_views(kept@) == filtered(string_views(values@), mask@),
{
    let array = arrow2::array::Utf8Array::<i64>::from_slice(values);
    let mask = arrow2::array::BooleanArray::from_slice(mask);
    let kept = arrow2::compute::filter::filter(&array, &mask).unwrap();
    let kept = kept.as_any().downcast_ref::<arrow2::array::Utf8Array<i64>>().unwrap();
    kept.values_iter().map(|s| s.to_string()).collect()
}

/// The booleans at the positions where `mask` is true, by
/// `arrow2::compute::filter::filter`. Values and mask must be equally long.
#[verifier::external_body]
pub(crate) fn filter_bools(values: &Vec<bool>, mask: &Vec<bool>) -> (kept: Vec<bool>)
    requires
        values@.len() == mask@.len(),
    ensures
        kept@ == filtered(values@, mask@),
{
    let array = arrow2::array::BooleanArray::from_slice(values);
    let mask = arrow2::array::BooleanArray::from_slice(mask);
    let kept = arrow2::compute::filter::filter(&array, &mask).unwrap();
    kept.as_any().downcast_ref::<arrow2::array::BooleanArray>().unwrap().values_iter().collect()
}

/// Filtering commutes with a change of representation, element by element.
pub proof fn lemma_filtered_map<A, B>(values: Seq<A>, mask: Seq<bool>, f: spec_fn(A) -> B)
    requires
        values.len() == mask.len(),
    ensures
        filtered(values, mask).map_values(f) == filtered(values.map_values(f), mask),
    decreases values.len(),
{
    if values.len() > 0 {
        lemma_filtered_map(values.drop_last(), mask.drop_last(), f);
        assert(values.map_values(f).drop_last() =~= values.drop_last().map_values(f));
        assert(filtered(values, mask).map_values(f) =~= filtered(values.map_values(f), mask));
    } else {
        assert(filtered(values, mask).map_values(f) =~= filtered(values.map_values(f), mask));
    }
}

/// Number of positions where `mask` is true.
pub open spec fn count_true(mask: Seq<bool>) -> nat
    decreases mask.len(),
{
    if mask.len() == 0 {
        0
    } else {
        count_true(mask.drop_last()) + if mask.last() {
            1nat
        } else {
            0nat
        }
    }
}

/// Filtering keeps as many elements as the mask has true positions.
pub proof fn lemma_filtered_len<T>(values: Seq<T>, mask: Seq<bool>)
    requires
        values.len() == mask.len(),
    ensures
        filtered(values, mask).len() == count_true(mask),
        count_true(mask) <= mask.len(),
    decreases values.len(),
{
    if values.len() > 0 {
        lemma_filtered_len(values.drop_last(), mask.drop_last());
    }
}

} // verus!
