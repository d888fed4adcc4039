//! The writer of the binary container.

use vstd::prelude::*;
use vstd::bytes::lemma_auto_spec_u32_to_from_le_bytes;
use vstd::std_specs::vec::axiom_vec_index_decreases;
use crate::wire::{push_bytes, push_u32};
use crate::container::{
    encoded, encoded_all, encoded_root, field_model, fields_model, heap, heap_of, is_encodable,
    is_tag, record_model, records_model, slot, slots, table, table_start, targets, Field,
    FieldModel, Record, RecordModel, KIND_BYTES, KIND_INLINE, KIND_TABLE, KIND_TABLES,
    KIND_VALUES, MAX_ENCODED_LEN,
};

verus! {

/// Lengths are counted up to this bound and no further.
pub const LEN_CAP: u64 = 0x1_0000_0000;

/// A length, counted up to the bound.
pub open spec fn capped(n: int) -> int {
    if n < LEN_CAP {
        n
    } else {
        LEN_CAP as int
    }
}

fn capped_sum(a: u64, b: u64) -> (r: u64)
    requires
        a <= LEN_CAP,
        b <= LEN_CAP,
    ensures
        r == capped(a + b),
{
    if a + b < LEN_CAP {
        a + b
    } else {
        LEN_CAP
    }
}

fn capped_len(n: usize) -> (r: u64)
    ensures
        r == capped(n as int),
{
    if (n as u64) < LEN_CAP {
        n as u64
    } else {
        LEN_CAP
    }
}

/// The number of bytes of a slot; it does not depend on the offsets in it.
pub open spec fn slot_len(f: FieldModel) -> int {
    match f {
        FieldModel::Inline(bytes) => 8 + bytes.len() as int,
        FieldModel::Bytes(_) => 12,
        FieldModel::Table(_) => 8,
        FieldModel::Tables(records) => 8 + 4 * records.len() as int,
        FieldModel::Values { .. } => 16,
    }
}

/// The number of bytes of the slots of the first `n` fields.
pub open spec fn slots_len(fields: Seq<FieldModel>, n: nat) -> int
    decreases n,
{
    if n == 0 || n > fields.len() {
        0
    } else {
        slots_len(fields, (n - 1) as nat) + slot_len(fields[n - 1])
    }
}

pub proof fn lemma_targets_len(records: Seq<RecordModel>, n: nat, back: int)
    requires
        n <= records.len(),
    ensures
        targets(records, n, back).len() == 4 * n,
    decreases n,
{
    lemma_auto_spec_u32_to_from_le_bytes();
    if n > 0 {
        lemma_targets_len(records, (n - 1) as nat, back);
    }
}

pub proof fn lemma_slot_len(f: FieldModel, back: int)
    ensures
        slot(f, back).len() == slot_len(f),
{
    lemma_auto_spec_u32_to_from_le_bytes();
    match f {
        FieldModel::Tables(records) => {
            lemma_targets_len(records, records.len(), back);
        },
        _ => {},
    }
}

pub proof fn lemma_slots_len(fields: Seq<FieldModel>, n: nat, total: int)
    requires
        n <= fields.len(),
    ensures
        slots(fields, n, total).len() == slots_len(fields, n),
    decreases n,
{
    if n > 0 {
        lemma_slots_len(fields, (n - 1) as nat, total);
        lemma_slot_len(fields[n - 1], total - heap(fields, (n - 1) as nat).len());
    }
}

/// The length of an encoded record: heap, field count and slots.
pub proof fn lemma_encoded_len(m: RecordModel)
    ensures
        encoded(m).len() == table_start(m) + 4 + slots_len(m.fields, m.fields.len()),
        table(m).len() == 4 + slots_len(m.fields, m.fields.len()),
{
    lemma_auto_spec_u32_to_from_le_bytes();
    lemma_slots_len(m.fields, m.fields.len(), table_start(m) as int);
}

/// The models of a prefix of a list of fields are a prefix of the models.
pub proof fn lemma_fields_model(fields: Seq<Field>, n: nat)
    requires
        n <= fields.len(),
    ensures
        fields_model(fields, n).len() == n,
        forall|i: int| 0 <= i < n ==> #[trigger] fields_model(fields, n)[i] == field_model(fields[i]),
    decreases n,
{
    if n > 0 {
        lemma_fields_model(fields, (n - 1) as nat);
    }
}

/// The models of a prefix of a list of records are a prefix of the models.
pub proof fn lemma_records_model(records: Seq<Record>, n: nat)
    requires
        n <= records.len(),
    ensures
        records_model(records, n).len() == n,
        forall|i: int|
            0 <= i < n ==> #[trigger] records_model(records, n)[i] == record_model(records[i]),
    decreases n,
{
    if n > 0 {
        lemma_records_model(records, (n - 1) as nat);
    }
}

/// The length of the payload of a field, counted up to the bound.
#[verifier::loop_isolation(false)]
pub fn payload_len(f: &Field) -> (n: u64)
    ensures
        n == capped(heap_of(f@).len() as int),
    decreases f, 0nat,
{
    match f {
        Field::Inline(_) => 0,
        Field::OffsetBytes(bytes) => capped_len(bytes.len()),
        Field::OffsetTable(record) => record_len(record),
        Field::VectorOfOffsets(records) => {
            let ghost models = records_model(records@, records@.len());
            proof {
                lemma_records_model(records@, records@.len());
            }
            let mut total: u64 = 0;
            let mut k: usize = 0;
            while k < records.len()
                invariant
                    k <= records@.len(),
                    models == records_model(records@, records@.len()),
                    models.len() == records@.len(),
                    forall|i: int|
                        0 <= i < records@.len() ==> #[trigger] models[i] == record_model(records@[i]),
                    total == capped(encoded_all(models, k as nat).len() as int),
                decreases records@.len() - k,
            {
                proof {
                    axiom_vec_index_decreases(*records, k as int);
                }
                let one = record_len(&records[k]);
                total = capped_sum(total, one);
                k = k + 1;
            }
            total
        },
        Field::VectorOfValues { stride, bytes } => capped_len(bytes.len()),
    }
}

/// The number of bytes of the slot of a field, counted up to the bound.
pub fn field_slot_len(f: &Field) -> (n: u64)
    ensures
        n == capped(slot_len(f@)),
{
    match f {
        Field::Inline(bytes) => capped_sum(8, capped_len(bytes.len())),
        Field::OffsetBytes(_) => 12,
        Field::OffsetTable(_) => 8,
        Field::VectorOfOffsets(records) => {
            proof {
                lemma_records_model(records@, records@.len());
            }
            let count = capped_len(records.len());
            if count >= 0x4000_0000 {
                LEN_CAP
            } else {
                capped_sum(8, 4 * count)
            }
        },
        Field::VectorOfValues { .. } => 16,
    }
}

/// The number of bytes of slots is never negative.
pub proof fn lemma_slots_len_nonnegative(fields: Seq<FieldModel>, n: nat)
    ensures
        0 <= slots_len(fields, n),
    decreases n,
{
    if n > 0 {
        lemma_slots_len_nonnegative(fields, (n - 1) as nat);
    }
}

/// The length of the heap of a record, counted up to the bound.
#[verifier::loop_isolation(false)]
pub fn record_heap_len(r: &Record) -> (n: u64)
    ensures
        n == capped(table_start(r@) as int),
    decreases r, 0nat,
{
    let ghost models = r@.fields;
    proof {
        lemma_fields_model(r.fields@, r.fields@.len());
    }
    let mut total: u64 = 0;
    let mut i: usize = 0;
    while i < r.fields.len()
        invariant
            i <= r.fields@.len(),
            models == r@.fields,
            models.len() == r.fields@.len(),
            forall|j: int| 0 <= j < r.fields@.len() ==> #[trigger] models[j] == field_model(r.fields@[j]),
            total == capped(heap(models, i as nat).len() as int),
        decreases r.fields@.len() - i,
    {
        proof {
            axiom_vec_index_decreases(r.fields, i as int);
        }
        let one = payload_len(&r.fields[i]);
        total = capped_sum(total, one);
        i = i + 1;
    }
    total
}

/// The length of the encoding of a record, counted up to the bound.
pub fn record_len(r: &Record) -> (n: u64)
    ensures
        n == capped(encoded(r@).len() as int),
    decreases r, 1nat,
{
    let ghost models = r@.fields;
    proof {
        lemma_fields_model(r.fields@, r.fields@.len());
        lemma_encoded_len(r@);
    }
    let mut total: u64 = capped_sum(record_heap_len(r), 4);
    let mut i: usize = 0;
    while i < r.fields.len()
        invariant
            i <= r.fields@.len(),
            models == r@.fields,
            models.len() == r.fields@.len(),
            forall|j: int| 0 <= j < r.fields@.len() ==> #[trigger] models[j] == field_model(r.fields@[j]),
            total == capped(table_start(r@) + 4 + slots_len(models, i as nat)),
        decreases r.fields@.len() - i,
    {
        proof {
            lemma_slots_len_nonnegative(models, i as nat);
        }
        let one = field_slot_len(&r.fields[i]);
        total = capped_sum(total, one);
        i = i + 1;
    }
    total
}

/// The heap and the slots only grow as more fields are counted, and every
/// slot has at least eight bytes.
pub proof fn lemma_lengths_monotonic(fields: Seq<FieldModel>, a: nat, b: nat)
    requires
        a <= b <= fields.len(),
    ensures
        heap(fields, a).len() <= heap(fields, b).len(),
        slots_len(fields, a) <= slots_len(fields, b),
        8 * a <= slots_len(fields, a),
    decreases b - a, a,
{
    if a < b {
        lemma_lengths_monotonic(fields, a, (b - 1) as nat);
    } else if a > 0 {
        lemma_lengths_monotonic(fields, (a - 1) as nat, (a - 1) as nat);
    }
}

/// The encodings of more records are longer.
pub proof fn lemma_encoded_all_monotonic(records: Seq<RecordModel>, a: nat, b: nat)
    requires
        a <= b <= records.len(),
    ensures
        encoded_all(records, a).len() <= encoded_all(records, b).len(),
    decreases b - a,
{
    if a < b {
        lemma_encoded_all_monotonic(records, a, (b - 1) as nat);
    }
}

/// Appends the slot of a field whose payload starts `back` bytes before the
/// table.
#[verifier::loop_isolation(false)]
fn write_slot(f: &Field, back: u64, out: &mut Vec<u8>)
    requires
        heap_of(f@).len() <= back < LEN_CAP,
        slot_len(f@) < LEN_CAP,
    ensures
        final(out)@ == old(out)@ + slot(f@, back as int),
{
    match f {
        Field::Inline(bytes) => {
            push_u32(out, KIND_INLINE);
            push_u32(out, bytes.len() as u32);
            push_bytes(out, bytes.as_slice());
            assert(out@ =~= old(out)@ + slot(f@, back as int));
        },
        Field::OffsetBytes(bytes) => {
            push_u32(out, KIND_BYTES);
            push_u32(out, back as u32);
            push_u32(out, bytes.len() as u32);
            assert(out@ =~= old(out)@ + slot(f@, back as int));
        },
        Field::OffsetTable(record) => {
            let inner = record_heap_len(record);
            proof {
                lemma_encoded_len(record@);
                lemma_slots_len_nonnegative(record@.fields, record@.fields.len());
            }
            push_u32(out, KIND_TABLE);
            push_u32(out, (back - inner) as u32);
            assert(out@ =~= old(out)@ + slot(f@, back as int));
        },
        Field::VectorOfOffsets(records) => {
            let ghost models = records_model(records@, records@.len());
            proof {
                lemma_records_model(records@, records@.len());
            }
            push_u32(out, KIND_TABLES);
            push_u32(out, records.len() as u32);
            let ghost head = out@;
            let mut done: u64 = 0;
            let mut k: usize = 0;
            while k < records.len()
                invariant
                    k <= records@.len(),
                    done == encoded_all(models, k as nat).len(),
                    out@ == head + targets(models, k as nat, back as int),
                decreases records@.len() - k,
            {
                proof {
                    lemma_encoded_all_monotonic(models, (k + 1) as nat, models.len());
                    lemma_encoded_len(models[k as int]);
                    lemma_slots_len_nonnegative(models[k as int].fields, models[k as int].fields.len());
                }
                let one = record_len(&records[k]);
                let inner = record_heap_len(&records[k]);
                push_u32(out, (back - done - inner) as u32);
                assert(out@ =~= head + targets(models, (k + 1) as nat, back as int));
                done = done + one;
                k = k + 1;
            }
            assert(out@ =~= old(out)@ + slot(f@, back as int));
        },
        Field::VectorOfValues { stride, bytes } => {
            push_u32(out, KIND_VALUES);
            push_u32(out, back as u32);
            push_u32(out, bytes.len() as u32);
            push_u32(out, *stride);
            assert(out@ =~= old(out)@ + slot(f@, back as int));
        },
    }
}

/// Appends the payload of a field.
#[verifier::loop_isolation(false)]
fn write_payload(f: &Field, out: &mut Vec<u8>)
    requires
        heap_of(f@).len() < LEN_CAP,
    ensures
        final(out)@ == old(out)@ + heap_of(f@),
    decreases f, 0nat,
{
    match f {
        Field::Inline(_) => {
            assert(out@ =~= old(out)@ + heap_of(f@));
        },
        Field::OffsetBytes(bytes) => {
            push_bytes(out, bytes.as_slice());
        },
        Field::OffsetTable(record) => {
            write_record(record, out);
        },
        Field::VectorOfOffsets(records) => {
            let ghost models = records_model(records@, records@.len());
            proof {
                lemma_records_model(records@, records@.len());
            }
            let mut k: usize = 0;
            while k < records.len()
                invariant
                    k <= records@.len(),
                    out@ == old(out)@ + encoded_all(models, k as nat),
                decreases records@.len() - k,
            {
                proof {
                    axiom_vec_index_decreases(*records, k as int);
                    lemma_encoded_all_monotonic(models, (k + 1) as nat, models.len());
                }
                let ghost before = out@;
                write_record(&records[k], out);
                assert(out@ =~= old(out)@ + encoded_all(models, (k + 1) as nat));
                k = k + 1;
            }
        },
        Field::VectorOfValues { stride, bytes } => {
            push_bytes(out, bytes.as_slice());
        },
    }
}

/// Appends the encoding of a record: the payloads of its fields in field
/// order, then its table.
#[verifier::loop_isolation(false)]
pub fn write_record(r: &Record, out: &mut Vec<u8>)
    requires
        encoded(r@).len() < LEN_CAP,
    ensures
        final(out)@ == old(out)@ + encoded(r@),
    decreases r, 1nat,
{
    let ghost models = r@.fields;
    let ghost count = models.len();
    proof {
        lemma_fields_model(r.fields@, r.fields@.len());
        lemma_encoded_len(r@);
        lemma_lengths_monotonic(models, count, count);
    }
    let mut i: usize = 0;
    while i < r.fields.len()
        invariant
            i <= r.fields@.len(),
            out@ == old(out)@ + heap(models, i as nat),
        decreases r.fields@.len() - i,
    {
        proof {
            axiom_vec_index_decreases(r.fields, i as int);
            lemma_lengths_monotonic(models, (i + 1) as nat, count);
        }
        write_payload(&r.fields[i], out);
        assert(out@ =~= old(out)@ + heap(models, (i + 1) as nat));
        i = i + 1;
    }
    let total: u64 = record_heap_len(r);
    push_u32(out, r.fields.len() as u32);
    let ghost head = out@;
    let mut before: u64 = 0;
    let mut i: usize = 0;
    while i < r.fields.len()
        invariant
            i <= r.fields@.len(),
            before == heap(models, i as nat).len(),
            out@ == head + slots(models, i as nat, total as int),
        decreases r.fields@.len() - i,
    {
        proof {
            lemma_lengths_monotonic(models, (i + 1) as nat, count);
            lemma_lengths_monotonic(models, i as nat, (i + 1) as nat);
            lemma_slots_len_nonnegative(models, i as nat);
        }
        write_slot(&r.fields[i], total - before, out);
        assert(out@ =~= head + slots(models, (i + 1) as nat, total as int));
        before = before + payload_len(&r.fields[i]);
        i = i + 1;
    }
    assert(out@ =~= old(out)@ + encoded(r@));
}

/// Why a record could not be written.
#[derive(Clone, Copy, Debug, PartialEq, Eq, Structural)]
pub enum EncodeError {
    /// The tag is not made of ASCII bytes.
    InvalidTag,
    /// The artifact would be longer than 32-bit offsets can address.
    TooLarge,
}

pub fn check_tag(tag: &[u8; 4]) -> (b: bool)
    ensures
        b == is_tag(tag@),
{
    tag[0] < 128 && tag[1] < 128 && tag[2] < 128 && tag[3] < 128
}

/// Writes an artifact file: the tag, the encoded root record, and the length
/// of the root's table.
///
/// Fails with `InvalidTag` exactly when the tag is not ASCII, and with
/// `TooLarge` exactly when the tag is but the file would not fit 32-bit
/// offsets.
pub fn encode_root(tag: &[u8; 4], root: &Record) -> (r: Result<Vec<u8>, EncodeError>)
    ensures
        match r {
            Ok(bytes) => is_tag(tag@) && is_encodable(root@) && bytes@ == encoded_root(
                tag@,
                root@,
            ),
            Err(EncodeError::InvalidTag) => !is_tag(tag@),
            Err(EncodeError::TooLarge) => is_tag(tag@) && !is_encodable(root@),
        },
{
    if !check_tag(tag) {
        return Err(EncodeError::InvalidTag);
    }
    let len = record_len(root);
    if len + 8 > MAX_ENCODED_LEN as u64 {
        return Err(EncodeError::TooLarge);
    }
    let heap_len = record_heap_len(root);
    let mut out: Vec<u8> = Vec::new();
    out.push(tag[0]);
    out.push(tag[1]);
    out.push(tag[2]);
    out.push(tag[3]);
    assert(out@ =~= tag@);
    write_record(root, &mut out);
    proof {
        lemma_encoded_len(root@);
    }
    push_u32(&mut out, (len - heap_len) as u32);
    Ok(out)
}

} // verus!
