//! What holds of the binary container: the reader returns the record that the
//! writer was given.

use vstd::prelude::*;
use vstd::bytes::lemma_auto_spec_u32_to_from_le_bytes;
use crate::wire::{le_bytes, le_u32_at};
use crate::container::{
    decoded, decoded_field, decoded_fields, decoded_root, decoded_targets, encoded, encoded_all,
    encoded_root, heap, heap_of, is_encodable, root_table_at, slot, slots, table, table_start,
    targets, FieldModel, RecordModel, KIND_BYTES, KIND_INLINE, KIND_TABLE, KIND_TABLES,
    KIND_VALUES, MAX_ENCODED_LEN,
};
use crate::container_encode::{
    lemma_encoded_all_monotonic, lemma_encoded_len, lemma_lengths_monotonic, lemma_slot_len,
    lemma_slots_len, lemma_slots_len_nonnegative, lemma_targets_len, slots_len,
};

verus! {

/// The bytes `s` stand at `at` in `buf`.
pub open spec fn holds(buf: Seq<u8>, at: int, s: Seq<u8>) -> bool {
    &&& 0 <= at
    &&& at + s.len() <= buf.len()
    &&& buf.subrange(at, at + s.len()) == s
}

/// Where two byte strings stand one after the other, each of them stands.
pub proof fn lemma_holds_split(buf: Seq<u8>, at: int, a: Seq<u8>, b: Seq<u8>)
    requires
        holds(buf, at, a + b),
    ensures
        holds(buf, at, a),
        holds(buf, at + a.len(), b),
{
    let whole = buf.subrange(at, at + (a + b).len());
    assert(buf.subrange(at, at + a.len()) =~= whole.subrange(0, a.len() as int));
    assert(whole.subrange(0, a.len() as int) =~= a);
    assert(buf.subrange(at + a.len(), at + a.len() + b.len()) =~= whole.subrange(
        a.len() as int,
        (a + b).len() as int,
    ));
    assert(whole.subrange(a.len() as int, (a + b).len() as int) =~= b);
}

/// A number is read from where its bytes stand.
pub proof fn lemma_holds_number(buf: Seq<u8>, at: int, x: u32)
    requires
        holds(buf, at, le_bytes(x)),
    ensures
        le_u32_at(buf, at) == x,
        le_bytes(x).len() == 4,
{
    lemma_auto_spec_u32_to_from_le_bytes();
}

/// Where the heap of the first `n` fields stands, the payload of each of
/// them stands at its place.
pub proof fn lemma_holds_payload(buf: Seq<u8>, at: int, fields: Seq<FieldModel>, n: nat, i: int)
    requires
        n <= fields.len(),
        0 <= i < n,
        holds(buf, at, heap(fields, n)),
    ensures
        holds(buf, at + heap(fields, i as nat).len(), heap_of(fields[i])),
    decreases n,
{
    lemma_holds_split(buf, at, heap(fields, (n - 1) as nat), heap_of(fields[n - 1]));
    if i < n - 1 {
        lemma_holds_payload(buf, at, fields, (n - 1) as nat, i);
    }
}

/// Where the encodings of the first `n` records stand, each of them stands
/// at its place.
pub proof fn lemma_holds_record(buf: Seq<u8>, at: int, records: Seq<RecordModel>, n: nat, k: int)
    requires
        n <= records.len(),
        0 <= k < n,
        holds(buf, at, encoded_all(records, n)),
    ensures
        holds(buf, at + encoded_all(records, k as nat).len(), encoded(records[k])),
    decreases n,
{
    lemma_holds_split(buf, at, encoded_all(records, (n - 1) as nat), encoded(records[n - 1]));
    if k < n - 1 {
        lemma_holds_record(buf, at, records, (n - 1) as nat, k);
    }
}

/// Where the slots of the first `n` fields stand, each of them stands at its
/// place.
pub proof fn lemma_holds_slot(
    buf: Seq<u8>,
    at: int,
    fields: Seq<FieldModel>,
    n: nat,
    total: int,
    i: int,
)
    requires
        n <= fields.len(),
        0 <= i < n,
        holds(buf, at, slots(fields, n, total)),
    ensures
        holds(
            buf,
            at + slots_len(fields, i as nat),
            slot(fields[i], total - heap(fields, i as nat).len()),
        ),
    decreases n,
{
    lemma_holds_split(
        buf,
        at,
        slots(fields, (n - 1) as nat, total),
        slot(fields[n - 1], total - heap(fields, (n - 1) as nat).len()),
    );
    lemma_slots_len(fields, (n - 1) as nat, total);
    if i < n - 1 {
        lemma_holds_slot(buf, at, fields, (n - 1) as nat, total, i);
    }
}

/// Where the first `n` offsets of a vector of offsets stand, each of them
/// stands at its place.
pub proof fn lemma_holds_target(
    buf: Seq<u8>,
    at: int,
    records: Seq<RecordModel>,
    n: nat,
    back: int,
    k: int,
)
    requires
        n <= records.len(),
        0 <= k < n,
        holds(buf, at, targets(records, n, back)),
    ensures
        holds(
            buf,
            at + 4 * k,
            le_bytes((back - encoded_all(records, k as nat).len() - table_start(records[k])) as u32),
        ),
    decreases n,
{
    lemma_holds_split(
        buf,
        at,
        targets(records, (n - 1) as nat, back),
        le_bytes(
            (back - encoded_all(records, (n - 1) as nat).len() - table_start(
                records[n - 1],
            )) as u32,
        ),
    );
    lemma_targets_len(records, (n - 1) as nat, back);
    if k < n - 1 {
        lemma_holds_target(buf, at, records, (n - 1) as nat, back, k);
    }
}

/// Where the table of the record `m` starts when its encoding stands at
/// `start`.
pub open spec fn table_position(m: RecordModel, start: int) -> int {
    start + table_start(m)
}

/// Where the slot of field `i` of `m` starts when the encoding of `m` stands
/// at `start`.
pub open spec fn slot_position(m: RecordModel, start: int, i: int) -> int {
    start + table_start(m) + 4 + slots_len(m.fields, i as nat)
}

/// The parts of an encoded record stand where the layout says.
proof fn lemma_holds_parts(m: RecordModel, buf: Seq<u8>, start: int)
    requires
        holds(buf, start, encoded(m)),
    ensures
        holds(buf, start, heap(m.fields, m.fields.len())),
        holds(buf, table_position(m, start), le_bytes(m.fields.len() as u32)),
        holds(
            buf,
            table_position(m, start) + 4,
            slots(m.fields, m.fields.len(), table_start(m) as int),
        ),
        le_bytes(m.fields.len() as u32).len() == 4,
{
    lemma_auto_spec_u32_to_from_le_bytes();
    let h = heap(m.fields, m.fields.len());
    let c = le_bytes(m.fields.len() as u32);
    let s = slots(m.fields, m.fields.len(), h.len() as int);
    assert(encoded(m) =~= h + (c + s));
    lemma_holds_split(buf, start, h, c + s);
    lemma_holds_split(buf, start + h.len(), c, s);
}

/// The reader finds the nested tables of a vector of offsets, from the
/// `k`-th on.
proof fn lemma_decoded_targets(m: RecordModel, buf: Seq<u8>, start: int, i: int, k: int)
    requires
        holds(buf, start, encoded(m)),
        encoded(m).len() <= MAX_ENCODED_LEN,
        0 <= i < m.fields.len(),
        m.fields[i] is Tables,
        0 <= k <= m.fields[i]->Tables_0.len(),
    ensures
        decoded_targets(
            buf,
            table_position(m, start),
            slot_position(m, start, i) + 8 + 4 * k,
            (m.fields[i]->Tables_0.len() - k) as nat,
        ) == Some(m.fields[i]->Tables_0.subrange(k, m.fields[i]->Tables_0.len() as int)),
    decreases m, 0nat, m.fields[i]->Tables_0.len() - k,
{
    let records = m.fields[i]->Tables_0;
    let count = records.len();
    let fields = m.fields;
    let n = fields.len();
    let total = table_start(m) as int;
    let table = table_position(m, start);
    let cursor = slot_position(m, start, i) + 8 + 4 * k;
    if k == count {
        assert(records.subrange(k, count as int) =~= Seq::<RecordModel>::empty());
    } else {
        lemma_auto_spec_u32_to_from_le_bytes();
        lemma_holds_parts(m, buf, start);
        lemma_encoded_len(m);
        lemma_slots_len_nonnegative(fields, n);
        lemma_lengths_monotonic(fields, (i + 1) as nat, n);
        lemma_lengths_monotonic(fields, i as nat, (i + 1) as nat);
        let back = total - heap(fields, i as nat).len();
        let payload = start + heap(fields, i as nat).len();
        lemma_holds_payload(buf, start, fields, n, i);
        lemma_holds_slot(buf, table + 4, fields, n, total, i);
        let head = le_bytes(KIND_TABLES) + le_bytes(count as u32);
        assert(slot(fields[i], back) =~= head + targets(records, count, back));
        lemma_holds_split(buf, slot_position(m, start, i), head, targets(records, count, back));
        lemma_holds_target(buf, slot_position(m, start, i) + 8, records, count, back, k);
        lemma_targets_len(records, count, back);
        let done = encoded_all(records, k as nat).len();
        let inner = table_start(records[k]);
        lemma_encoded_all_monotonic(records, (k + 1) as nat, count);
        lemma_encoded_len(records[k]);
        lemma_slots_len_nonnegative(records[k].fields, records[k].fields.len());
        let distance = back - done - inner;
        lemma_holds_number(buf, cursor, distance as u32);
        lemma_holds_record(buf, payload, records, count, k);
        lemma_decoded(records[k], buf, payload + done);
        assert(table - distance == table_position(records[k], payload + done));
        lemma_decoded_targets(m, buf, start, i, k + 1);
        assert(seq![records[k]] + records.subrange(k + 1, count as int) =~= records.subrange(
            k,
            count as int,
        ));
    }
}

/// The reader finds field `i` of `m` at its slot.
proof fn lemma_decoded_field(m: RecordModel, buf: Seq<u8>, start: int, i: int)
    requires
        holds(buf, start, encoded(m)),
        encoded(m).len() <= MAX_ENCODED_LEN,
        0 <= i < m.fields.len(),
    ensures
        decoded_field(buf, table_position(m, start), slot_position(m, start, i)) == Some(
            (m.fields[i], slot_position(m, start, i + 1)),
        ),
    decreases m, 1nat, 0nat,
{
    lemma_auto_spec_u32_to_from_le_bytes();
    let fields = m.fields;
    let n = fields.len();
    let total = table_start(m) as int;
    let table = table_position(m, start);
    let cursor = slot_position(m, start, i);
    let back = total - heap(fields, i as nat).len();
    let payload = start + heap(fields, i as nat).len();
    lemma_holds_parts(m, buf, start);
    lemma_encoded_len(m);
    lemma_slots_len_nonnegative(fields, n);
    lemma_slots_len_nonnegative(fields, i as nat);
    lemma_lengths_monotonic(fields, (i + 1) as nat, n);
    lemma_lengths_monotonic(fields, i as nat, (i + 1) as nat);
    lemma_holds_payload(buf, start, fields, n, i);
    lemma_holds_slot(buf, table + 4, fields, n, total, i);
    lemma_slot_len(fields[i], back);
    match fields[i] {
        FieldModel::Inline(bytes) => {
            let head = le_bytes(KIND_INLINE);
            let size = le_bytes(bytes.len() as u32);
            assert(slot(fields[i], back) =~= head + (size + bytes));
            lemma_holds_split(buf, cursor, head, size + bytes);
            lemma_holds_split(buf, cursor + 4, size, bytes);
            lemma_holds_number(buf, cursor, KIND_INLINE);
            lemma_holds_number(buf, cursor + 4, bytes.len() as u32);
        },
        FieldModel::Bytes(bytes) => {
            let head = le_bytes(KIND_BYTES);
            let offset = le_bytes(back as u32);
            let size = le_bytes(bytes.len() as u32);
            assert(slot(fields[i], back) =~= head + (offset + size));
            lemma_holds_split(buf, cursor, head, offset + size);
            lemma_holds_split(buf, cursor + 4, offset, size);
            lemma_holds_number(buf, cursor, KIND_BYTES);
            lemma_holds_number(buf, cursor + 4, back as u32);
            lemma_holds_number(buf, cursor + 8, bytes.len() as u32);
        },
        FieldModel::Table(record) => {
            lemma_encoded_len(record);
            lemma_slots_len_nonnegative(record.fields, record.fields.len());
            let distance = back - table_start(record);
            let head = le_bytes(KIND_TABLE);
            let offset = le_bytes(distance as u32);
            assert(slot(fields[i], back) =~= head + offset);
            lemma_holds_split(buf, cursor, head, offset);
            lemma_holds_number(buf, cursor, KIND_TABLE);
            lemma_holds_number(buf, cursor + 4, distance as u32);
            lemma_decoded(record, buf, payload);
            assert(table - distance == table_position(record, payload));
        },
        FieldModel::Tables(records) => {
            let head = le_bytes(KIND_TABLES);
            let count = le_bytes(records.len() as u32);
            let offsets = targets(records, records.len(), back);
            lemma_targets_len(records, records.len(), back);
            assert(slot(fields[i], back) =~= head + (count + offsets));
            lemma_holds_split(buf, cursor, head, count + offsets);
            lemma_holds_split(buf, cursor + 4, count, offsets);
            lemma_holds_number(buf, cursor, KIND_TABLES);
            lemma_holds_number(buf, cursor + 4, records.len() as u32);
            lemma_decoded_targets(m, buf, start, i, 0);
            assert(records.subrange(0, records.len() as int) =~= records);
        },
        FieldModel::Values { stride, bytes } => {
            let head = le_bytes(KIND_VALUES);
            let offset = le_bytes(back as u32);
            let size = le_bytes(bytes.len() as u32);
            let step = le_bytes(stride);
            assert(slot(fields[i], back) =~= head + (offset + (size + step)));
            lemma_holds_split(buf, cursor, head, offset + (size + step));
            lemma_holds_split(buf, cursor + 4, offset, size + step);
            lemma_holds_split(buf, cursor + 8, size, step);
            lemma_holds_number(buf, cursor, KIND_VALUES);
            lemma_holds_number(buf, cursor + 4, back as u32);
            lemma_holds_number(buf, cursor + 8, bytes.len() as u32);
            lemma_holds_number(buf, cursor + 12, stride);
        },
    }
}

/// The reader finds the fields of `m` from the `i`-th on.
proof fn lemma_decoded_fields(m: RecordModel, buf: Seq<u8>, start: int, i: int)
    requires
        holds(buf, start, encoded(m)),
        encoded(m).len() <= MAX_ENCODED_LEN,
        0 <= i <= m.fields.len(),
    ensures
        decoded_fields(
            buf,
            table_position(m, start),
            slot_position(m, start, i),
            (m.fields.len() - i) as nat,
        ) == Some(m.fields.subrange(i, m.fields.len() as int)),
    decreases m, 2nat, m.fields.len() - i,
{
    let n = m.fields.len();
    if i == n {
        assert(m.fields.subrange(i, n as int) =~= Seq::<FieldModel>::empty());
    } else {
        lemma_decoded_field(m, buf, start, i);
        lemma_decoded_fields(m, buf, start, i + 1);
        assert(seq![m.fields[i]] + m.fields.subrange(i + 1, n as int) =~= m.fields.subrange(
            i,
            n as int,
        ));
    }
}

/// Where the encoding of a record stands, the reader finds the record: the
/// table that the writer wrote after the heap decodes to the record that was
/// written, whatever stands before and after.
pub proof fn lemma_decoded(m: RecordModel, buf: Seq<u8>, start: int)
    requires
        holds(buf, start, encoded(m)),
        encoded(m).len() <= MAX_ENCODED_LEN,
    ensures
        decoded(buf, table_position(m, start)) == Some(m),
    decreases m, 3nat, 0nat,
{
    lemma_holds_parts(m, buf, start);
    lemma_encoded_len(m);
    lemma_lengths_monotonic(m.fields, m.fields.len(), m.fields.len());
    lemma_holds_number(buf, table_position(m, start), m.fields.len() as u32);
    lemma_decoded_fields(m, buf, start, 0);
    assert(m.fields.subrange(0, m.fields.len() as int) =~= m.fields);
}

/// Round trip: reading an artifact file that was written from a record gives
/// that record back, with every field in the mode and with the value it was
/// written with.
pub proof fn lemma_round_trip(tag: Seq<u8>, m: RecordModel)
    requires
        tag.len() == 4,
        is_encodable(m),
    ensures
        decoded_root(tag, encoded_root(tag, m)) == Some(m),
{
    lemma_auto_spec_u32_to_from_le_bytes();
    lemma_encoded_len(m);
    lemma_slots_len_nonnegative(m.fields, m.fields.len());
    let buf = encoded_root(tag, m);
    let trailer = le_bytes(table(m).len() as u32);
    assert(buf =~= tag + (encoded(m) + trailer));
    assert(holds(buf, 0, tag + (encoded(m) + trailer))) by {
        assert(buf.subrange(0, buf.len() as int) =~= buf);
    }
    lemma_holds_split(buf, 0, tag, encoded(m) + trailer);
    lemma_holds_split(buf, 4, encoded(m), trailer);
    lemma_holds_number(buf, 4 + encoded(m).len() as int, table(m).len() as u32);
    lemma_decoded(m, buf, 4);
    assert(root_table_at(buf) == Some(table_position(m, 4)));
}

} // verus!
