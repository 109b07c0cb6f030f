//! Rows of delimited text, held as `csv::StringRecord`.
//!
//! The items of this file are not verified: each states what is taken on
//! trust of the `csv` crate.

use vstd::prelude::*;

verus! {

/// `csv::StringRecord`: one row, a sequence of fields.
#[verifier::external_type_specification]
#[verifier::external_body]
pub struct ExStringRecord(csv::StringRecord);

/// The fields of a row, in their order.
pub uninterp spec fn fields(record: csv::StringRecord) -> Seq<Seq<char>>;

/// `StringRecord::clone`: a row with the same fields.
#[verifier::external_body]
pub(crate) fn copy_of(record: &csv::StringRecord) -> (r: csv::StringRecord)
    ensures
        fields(r) == fields(*record),
{
    record.clone()
}

/// `StringRecord::push_field`: the field is added behind the others.
#[verifier::external_body]
pub(crate) fn push_field(record: &mut csv::StringRecord, field: &str)
    ensures
        fields(*final(record)) == fields(*old(record)).push(field@),
{
    record.push_field(field)
}

/// `StringRecord::len`: the number of fields.
#[verifier::external_body]
pub(crate) fn field_count(record: &csv::StringRecord) -> (n: usize)
    ensures
        n == fields(*record).len(),
{
    record.len()
}

/// `StringRecord::get`: the field at a place, if the row has that many.
#[verifier::external_body]
pub(crate) fn field<'a>(record: &'a csv::StringRecord, i: usize) -> (r: Option<&'a str>)
    ensures
        match r {
            Some(text) => i < fields(*record).len() && text@ == fields(*record)[i as int],
            None => i >= fields(*record).len(),
        },
{
    record.get(i)
}

} // verus!
