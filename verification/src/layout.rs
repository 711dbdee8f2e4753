//! Records of fixed-width fields, laid out without gaps.
use vstd::prelude::*;

use crate::bytes::{
    lemma_number_len, lemma_number_roundtrip, lemma_value_roundtrip, number, number_at,
    push_number, span, value, ByteOrder,
};

verus! {

/// One field of a record: its value and its width in bytes.
pub type Field = (u64, usize);

/// Where field `i` starts.
pub open spec fn offset(fields: Seq<Field>, i: int) -> int
    decreases i,
{
    if i <= 0 {
        0
    } else {
        offset(fields, i - 1) + fields[i - 1].1
    }
}

/// The bytes of the first `i` fields, one after the other.
pub open spec fn record_to(order: ByteOrder, fields: Seq<Field>, i: int) -> Seq<u8>
    decreases i,
{
    if i <= 0 {
        Seq::empty()
    } else {
        record_to(order, fields, i - 1) + number(
            order,
            fields[i - 1].0 as nat,
            fields[i - 1].1 as nat,
        )
    }
}

/// The bytes of the whole record.
pub open spec fn record(order: ByteOrder, fields: Seq<Field>) -> Seq<u8> {
    record_to(order, fields, fields.len() as int)
}

/// A record is as long as its fields are together.
pub proof fn lemma_record_len(order: ByteOrder, fields: Seq<Field>, n: int)
    requires
        0 <= n <= fields.len(),
    ensures
        record_to(order, fields, n).len() == offset(fields, n),
    decreases n,
{
    if n > 0 {
        lemma_record_len(order, fields, n - 1);
        lemma_number_len(order, fields[n - 1].0 as nat, fields[n - 1].1 as nat);
    }
}

/// Each field's bytes stand at its offset.
pub proof fn lemma_field_in_record(order: ByteOrder, fields: Seq<Field>, n: int, i: int)
    requires
        0 <= i < n <= fields.len(),
    ensures
        0 <= offset(fields, i) <= offset(fields, i + 1) <= record_to(order, fields, n).len(),
        offset(fields, i + 1) == offset(fields, i) + fields[i].1,
        record_to(order, fields, n).subrange(offset(fields, i), offset(fields, i + 1)) == number(
            order,
            fields[i].0 as nat,
            fields[i].1 as nat,
        ),
    decreases n,
{
    lemma_record_len(order, fields, n - 1);
    lemma_record_len(order, fields, n);
    lemma_number_len(order, fields[n - 1].0 as nat, fields[n - 1].1 as nat);
    if i < n - 1 {
        lemma_field_in_record(order, fields, n - 1, i);
        assert(record_to(order, fields, n).subrange(offset(fields, i), offset(fields, i + 1))
            =~= record_to(order, fields, n - 1).subrange(offset(fields, i), offset(fields, i + 1)));
    } else {
        assert(record_to(order, fields, n).subrange(offset(fields, i), offset(fields, i + 1))
            =~= number(order, fields[i].0 as nat, fields[i].1 as nat));
    }
}

/// Reading at a field's offset gives its value, whatever follows the record,
/// if the value fits the field's width.
pub proof fn lemma_read_field(order: ByteOrder, fields: Seq<Field>, rest: Seq<u8>, i: int)
    requires
        0 <= i < fields.len(),
        fields[i].0 < span(fields[i].1 as nat),
    ensures
        number_at(order, record(order, fields) + rest, offset(fields, i), fields[i].1 as int)
            == fields[i].0,
{
    lemma_field_in_record(order, fields, fields.len() as int, i);
    lemma_number_roundtrip(order, fields[i].0 as nat, fields[i].1 as nat);
    let at = offset(fields, i);
    let end = at + fields[i].1;
    assert((record(order, fields) + rest).subrange(at, end) =~= record(order, fields).subrange(
        at,
        end,
    ));
}

/// If every field holds what `s` holds at its offset, the record is the start
/// of `s`.
pub proof fn lemma_record_of_read(order: ByteOrder, fields: Seq<Field>, s: Seq<u8>, n: int)
    requires
        0 <= n <= fields.len(),
        offset(fields, n) <= s.len(),
        forall|i: int|
            0 <= i < n ==> (#[trigger] fields[i]).0 == number_at(
                order,
                s,
                offset(fields, i),
                fields[i].1 as int,
            ),
    ensures
        0 <= offset(fields, n),
        record_to(order, fields, n) == s.take(offset(fields, n)),
    decreases n,
{
    if n > 0 {
        lemma_record_len(order, fields, n - 1);
        lemma_record_of_read(order, fields, s, n - 1);
        let at = offset(fields, n - 1);
        let end = offset(fields, n);
        let field = fields[n - 1];
        assert(field.0 == value(order, s.subrange(at, end)));
        lemma_value_roundtrip(order, s.subrange(at, end));
        assert(s.take(at) + s.subrange(at, end) =~= s.take(end));
    } else {
        assert(s.take(0) =~= Seq::empty());
    }
}

/// Lays the fields out.
pub fn encode(order: ByteOrder, fields: &Vec<Field>) -> (buf: Vec<u8>)
    ensures
        buf@ == record(order, fields@),
{
    let mut buf: Vec<u8> = Vec::new();
    let mut i: usize = 0;
    while i < fields.len()
        invariant
            i <= fields@.len(),
            buf@ == record_to(order, fields@, i as int),
        decreases fields@.len() - i,
    {
        let field: Field = fields[i];
        push_number(order, &mut buf, field.0, field.1);
        i = i + 1;
    }
    buf
}

} // verus!
