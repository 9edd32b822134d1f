//! Structured telemetry payloads and the metric extractor.
//!
//! A payload is modelled as an ordered list of named fields; a field either
//! carries a fixed-point numeric value or is non-numeric (a string, an
//! object, and so on — anything the pipeline cannot analyze). The extractor
//! reads the scalar at a configured field name: absence and non-numeric
//! values are represented, never an error.

use vstd::prelude::*;

verus! {

/// The value of one payload field, as far as the pipeline reads it.
#[derive(Clone, Copy, PartialEq, Eq, Structural, Debug)]
pub enum FieldValue {
    /// A numeric value, in the pipeline's fixed-point scale.
    Number(i64),
    /// Anything that is not a number at that field.
    NonNumeric,
}

/// One named field of a payload.
pub struct PayloadField {
    pub name: Vec<u8>,
    pub value: FieldValue,
}

/// A structured telemetry payload: named fields in order of appearance.
pub struct Payload {
    pub fields: Vec<PayloadField>,
}

/// The value at the first field named `key`, if any.
pub open spec fn field_lookup(fields: Seq<PayloadField>, key: Seq<u8>) -> Option<FieldValue>
    decreases fields.len(),
{
    if fields.len() == 0 {
        None
    } else if fields[0].name@ == key {
        Some(fields[0].value)
    } else {
        field_lookup(fields.drop_first(), key)
    }
}

/// The metric a payload carries at the field named `key`: its numeric value
/// there, or nothing when the field is absent or non-numeric.
pub open spec fn payload_metric(p: Payload, key: Seq<u8>) -> Option<i64> {
    match field_lookup(p.fields@, key) {
        Some(FieldValue::Number(v)) => Some(v),
        _ => None,
    }
}

/// Byte-for-byte equality of two names.
fn bytes_eq(a: &Vec<u8>, b: &Vec<u8>) -> (r: bool)
    ensures
        r == (a@ == b@),
{
    if a.len() != b.len() {
        return false;
    }
    let mut i: usize = 0;
    while i < a.len()
        invariant
            a@.len() == b@.len(),
            0 <= i <= a@.len(),
            forall|j: int| 0 <= j < i as int ==> a@[j] == b@[j],
        decreases a@.len() - i,
    {
        if a[i] != b[i] {
            return false;
        }
        i = i + 1;
    }
    proof {
        assert(a@ =~= b@);
    }
    true
}

/// Pulls the scalar observation out of a payload: the number at the field
/// named `key`, or nothing if that field is absent or non-numeric. Never
/// fails.
pub fn extract_metric(p: &Payload, key: &Vec<u8>) -> (r: Option<i64>)
    ensures
        r == payload_metric(*p, key@),
{
    let ghost fields = p.fields@;
    proof {
        assert(fields.skip(0) =~= fields);
    }
    let mut i: usize = 0;
    while i < p.fields.len()
        invariant
            fields == p.fields@,
            0 <= i <= fields.len(),
            field_lookup(fields, key@) == field_lookup(fields.skip(i as int), key@),
        decreases fields.len() - i,
    {
        proof {
            assert(fields.skip(i as int).drop_first() =~= fields.skip(i as int + 1));
            assert(fields.skip(i as int)[0] == fields[i as int]);
        }
        if bytes_eq(&p.fields[i].name, key) {
            return match p.fields[i].value {
                FieldValue::Number(v) => Some(v),
                FieldValue::NonNumeric => None,
            };
        }
        i = i + 1;
    }
    proof {
        assert(fields.skip(fields.len() as int) =~= Seq::<PayloadField>::empty());
    }
    None
}

} // verus!
