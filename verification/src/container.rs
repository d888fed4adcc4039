//! The binary container: the format every artifact is written in.
//!
//! A record is a list of fields, each stored in one of four modes. A field is
//! either copied by value into the record's table, or its payload is written
//! to the heap that precedes the table and the table holds an offset to it.
//! The encoding is bottom-up: the payloads of a record are written first, in
//! field order, and its table after them, so every offset points backwards. An
//! offset is the distance from the start of the table back to the payload; an
//! encoded record therefore means the same wherever it stands in a file.
//!
//! A table is a field count followed by one slot per field. All numbers are
//! 32-bit and little-endian:
//!
//! | mode              | slot                                          |
//! |-------------------|-----------------------------------------------|
//! | inline            | `0`, length, the bytes                        |
//! | offset to bytes   | `1`, offset, length                           |
//! | offset to table   | `2`, offset of the nested table               |
//! | vector of offsets | `3`, count, one offset per nested table       |
//! | vector of values  | `4`, offset, length in bytes, element stride  |
//!
//! An artifact file is the four-byte tag, the encoded root record, and the
//! length of the root's table, by which a reader finds the table from the end.
//!
//! This file holds the records and what their encoding is; `container_encode`
//! and `container_decode` hold the writer and the reader, `container_laws`
//! the proof that the reader returns what the writer was given.

use vstd::prelude::*;
use crate::wire::{le_bytes, le_u32_at};

verus! {

/// The slot kind of a field stored by value.
pub const KIND_INLINE: u32 = 0;

/// The slot kind of an offset to a byte string.
pub const KIND_BYTES: u32 = 1;

/// The slot kind of an offset to a nested table.
pub const KIND_TABLE: u32 = 2;

/// The slot kind of a vector of offsets to nested tables.
pub const KIND_TABLES: u32 = 3;

/// The slot kind of an offset to a flat array of plain values.
pub const KIND_VALUES: u32 = 4;

/// The largest encoded artifact: offsets and lengths are 32-bit.
pub const MAX_ENCODED_LEN: usize = 0xFFFF_FFFF;

/// The four ways a field of a record is stored.
#[derive(Clone, Copy, Debug, PartialEq, Eq, Structural)]
pub enum StorageMode {
    /// A scalar or plain struct, copied by value into the table.
    Direct,
    /// A string, byte vector or nested table in the heap, behind one offset.
    Offset,
    /// A vector of offsets to nested tables, each encoded on its own.
    VectorOffsets,
    /// A flat array of plain values, copied verbatim into the heap.
    VectorDirect,
}

/// One field of a record, with its value.
pub enum Field {
    /// Stored by value.
    Inline(Vec<u8>),
    /// A string or byte vector behind an offset.
    OffsetBytes(Vec<u8>),
    /// A nested table behind an offset.
    OffsetTable(Record),
    /// Nested tables behind a vector of offsets.
    VectorOfOffsets(Vec<Record>),
    /// A flat array of plain values of `stride` bytes each.
    VectorOfValues { stride: u32, bytes: Vec<u8> },
}

/// A record: the fields of one table, in order.
pub struct Record {
    pub fields: Vec<Field>,
}

/// What a field is, as mathematics.
pub enum FieldModel {
    Inline(Seq<u8>),
    Bytes(Seq<u8>),
    Table(RecordModel),
    Tables(Seq<RecordModel>),
    Values { stride: u32, bytes: Seq<u8> },
}

/// What a record is, as mathematics.
pub struct RecordModel {
    pub fields: Seq<FieldModel>,
}

impl Field {
    pub open spec fn spec_mode(&self) -> StorageMode {
        match self {
            Field::Inline(_) => StorageMode::Direct,
            Field::OffsetBytes(_) => StorageMode::Offset,
            Field::OffsetTable(_) => StorageMode::Offset,
            Field::VectorOfOffsets(_) => StorageMode::VectorOffsets,
            Field::VectorOfValues { .. } => StorageMode::VectorDirect,
        }
    }

    /// The mode in which the field is stored.
    pub fn mode(&self) -> (m: StorageMode)
        ensures
            m == self.spec_mode(),
    {
        match self {
            Field::Inline(_) => StorageMode::Direct,
            Field::OffsetBytes(_) => StorageMode::Offset,
            Field::OffsetTable(_) => StorageMode::Offset,
            Field::VectorOfOffsets(_) => StorageMode::VectorOffsets,
            Field::VectorOfValues { .. } => StorageMode::VectorDirect,
        }
    }
}

/// The model of a field.
pub open spec fn field_model(f: Field) -> FieldModel
    decreases f,
{
    match f {
        Field::Inline(bytes) => FieldModel::Inline(bytes@),
        Field::OffsetBytes(bytes) => FieldModel::Bytes(bytes@),
        Field::OffsetTable(record) => FieldModel::Table(record_model(record)),
        Field::VectorOfOffsets(records) => FieldModel::Tables(
            records_model(records@, records@.len()),
        ),
        Field::VectorOfValues { stride, bytes } => FieldModel::Values { stride, bytes: bytes@ },
    }
}

/// The models of the first `n` fields.
pub open spec fn fields_model(fields: Seq<Field>, n: nat) -> Seq<FieldModel>
    decreases fields, n,
{
    if n == 0 || n > fields.len() {
        Seq::empty()
    } else {
        fields_model(fields, (n - 1) as nat).push(field_model(fields[n - 1]))
    }
}

/// The models of the first `n` records.
pub open spec fn records_model(records: Seq<Record>, n: nat) -> Seq<RecordModel>
    decreases records, n,
{
    if n == 0 || n > records.len() {
        Seq::empty()
    } else {
        records_model(records, (n - 1) as nat).push(record_model(records[n - 1]))
    }
}

/// The model of a record.
pub open spec fn record_model(r: Record) -> RecordModel
    decreases r,
{
    RecordModel { fields: fields_model(r.fields@, r.fields@.len()) }
}

impl View for Record {
    type V = RecordModel;

    open spec fn view(&self) -> RecordModel {
        record_model(*self)
    }
}

impl View for Field {
    type V = FieldModel;

    open spec fn view(&self) -> FieldModel {
        field_model(*self)
    }
}

/// The payload that a field contributes to the heap of its record.
pub open spec fn heap_of(f: FieldModel) -> Seq<u8>
    decreases f,
{
    match f {
        FieldModel::Inline(_) => Seq::empty(),
        FieldModel::Bytes(bytes) => bytes,
        FieldModel::Table(record) => encoded(record),
        FieldModel::Tables(records) => encoded_all(records, records.len()),
        FieldModel::Values { stride, bytes } => bytes,
    }
}

/// The payloads of the first `n` fields, in field order.
pub open spec fn heap(fields: Seq<FieldModel>, n: nat) -> Seq<u8>
    decreases fields, n,
{
    if n == 0 || n > fields.len() {
        Seq::empty()
    } else {
        heap(fields, (n - 1) as nat) + heap_of(fields[n - 1])
    }
}

/// The encodings of the first `n` records, one after the other.
pub open spec fn encoded_all(records: Seq<RecordModel>, n: nat) -> Seq<u8>
    decreases records, n,
{
    if n == 0 || n > records.len() {
        Seq::empty()
    } else {
        encoded_all(records, (n - 1) as nat) + encoded(records[n - 1])
    }
}

/// Where the table of a record starts within its encoding: after the heap.
pub open spec fn table_start(m: RecordModel) -> nat
    decreases m,
{
    heap(m.fields, m.fields.len()).len()
}

/// The offsets of the first `n` nested tables of a vector of offsets whose
/// payload starts `back` bytes before the table that holds the slot.
pub open spec fn targets(records: Seq<RecordModel>, n: nat, back: int) -> Seq<u8>
    decreases records, n,
{
    if n == 0 || n > records.len() {
        Seq::empty()
    } else {
        targets(records, (n - 1) as nat, back) + le_bytes(
            (back - encoded_all(records, (n - 1) as nat).len() - table_start(records[n - 1])) as u32,
        )
    }
}

/// The slot of a field whose payload starts `back` bytes before the table.
pub open spec fn slot(f: FieldModel, back: int) -> Seq<u8>
    decreases f,
{
    match f {
        FieldModel::Inline(bytes) => le_bytes(KIND_INLINE) + le_bytes(bytes.len() as u32) + bytes,
        FieldModel::Bytes(bytes) => le_bytes(KIND_BYTES) + le_bytes(back as u32) + le_bytes(
            bytes.len() as u32,
        ),
        FieldModel::Table(record) => le_bytes(KIND_TABLE) + le_bytes(
            (back - table_start(record)) as u32,
        ),
        FieldModel::Tables(records) => le_bytes(KIND_TABLES) + le_bytes(records.len() as u32)
            + targets(records, records.len(), back),
        FieldModel::Values { stride, bytes } => le_bytes(KIND_VALUES) + le_bytes(back as u32)
            + le_bytes(bytes.len() as u32) + le_bytes(stride),
    }
}

/// The slots of the first `n` fields of a record whose heap has `total`
/// bytes.
pub open spec fn slots(fields: Seq<FieldModel>, n: nat, total: int) -> Seq<u8>
    decreases fields, n,
{
    if n == 0 || n > fields.len() {
        Seq::empty()
    } else {
        slots(fields, (n - 1) as nat, total) + slot(
            fields[n - 1],
            total - heap(fields, (n - 1) as nat).len(),
        )
    }
}

/// The table of a record: the field count and the slots.
pub open spec fn table(m: RecordModel) -> Seq<u8>
    decreases m,
{
    le_bytes(m.fields.len() as u32) + slots(m.fields, m.fields.len(), table_start(m) as int)
}

/// The encoding of a record: its heap, then its table.
pub open spec fn encoded(m: RecordModel) -> Seq<u8>
    decreases m,
{
    heap(m.fields, m.fields.len()) + le_bytes(m.fields.len() as u32) + slots(
        m.fields,
        m.fields.len(),
        heap(m.fields, m.fields.len()).len() as int,
    )
}

/// The artifact file of a root record: the tag, the encoded record, and the
/// length of the root's table.
pub open spec fn encoded_root(tag: Seq<u8>, m: RecordModel) -> Seq<u8> {
    tag + encoded(m) + le_bytes(table(m).len() as u32)
}

/// A record can be encoded: the artifact file fits 32-bit offsets.
pub open spec fn is_encodable(m: RecordModel) -> bool {
    encoded(m).len() + 8 <= MAX_ENCODED_LEN
}

/// The tag is four ASCII bytes.
pub open spec fn is_tag(tag: Seq<u8>) -> bool {
    &&& tag.len() == 4
    &&& forall|i: int| 0 <= i < 4 ==> (#[trigger] tag[i]) < 128
}

/// The nested tables that the `n` offsets at `cursor` point to, as seen from
/// the table at `table`.
pub open spec fn decoded_targets(buf: Seq<u8>, table: int, cursor: int, n: nat) -> Option<
    Seq<RecordModel>,
>
    decreases table, 0nat, n,
{
    if n == 0 {
        Some(Seq::empty())
    } else if table < 0 || cursor < 0 || cursor + 4 > buf.len() {
        None
    } else {
        let distance = le_u32_at(buf, cursor);
        if distance == 0 || distance > table {
            None
        } else {
            match decoded(buf, table - distance) {
                None => None,
                Some(first) => match decoded_targets(buf, table, cursor + 4, (n - 1) as nat) {
                    None => None,
                    Some(rest) => Some(seq![first] + rest),
                },
            }
        }
    }
}

/// The field whose slot starts at `cursor` in the table at `table`, and the
/// place where the next slot starts.
pub open spec fn decoded_field(buf: Seq<u8>, table: int, cursor: int) -> Option<(FieldModel, int)>
    decreases table, 1nat, 0nat,
{
    if table < 0 || cursor < 0 || cursor + 8 > buf.len() {
        None
    } else {
        let kind = le_u32_at(buf, cursor);
        let first = le_u32_at(buf, cursor + 4);
        if kind == KIND_INLINE {
            if cursor + 8 + first > buf.len() {
                None
            } else {
                Some(
                    (
                        FieldModel::Inline(buf.subrange(cursor + 8, cursor + 8 + first)),
                        cursor + 8 + first,
                    ),
                )
            }
        } else if kind == KIND_BYTES {
            if cursor + 12 > buf.len() {
                None
            } else {
                let len = le_u32_at(buf, cursor + 8);
                if first > table || len > first {
                    None
                } else {
                    Some(
                        (
                            FieldModel::Bytes(buf.subrange(table - first, table - first + len)),
                            cursor + 12,
                        ),
                    )
                }
            }
        } else if kind == KIND_TABLE {
            if first == 0 || first > table {
                None
            } else {
                match decoded(buf, table - first) {
                    None => None,
                    Some(record) => Some((FieldModel::Table(record), cursor + 8)),
                }
            }
        } else if kind == KIND_TABLES {
            if cursor + 8 + 4 * first > buf.len() {
                None
            } else {
                match decoded_targets(buf, table, cursor + 8, first as nat) {
                    None => None,
                    Some(records) => Some((FieldModel::Tables(records), cursor + 8 + 4 * first)),
                }
            }
        } else if kind == KIND_VALUES {
            if cursor + 16 > buf.len() {
                None
            } else {
                let len = le_u32_at(buf, cursor + 8);
                let stride = le_u32_at(buf, cursor + 12);
                if first > table || len > first {
                    None
                } else {
                    Some(
                        (
                            FieldModel::Values {
                                stride,
                                bytes: buf.subrange(table - first, table - first + len),
                            },
                            cursor + 16,
                        ),
                    )
                }
            }
        } else {
            None
        }
    }
}

/// The `n` fields whose slots start at `cursor` in the table at `table`.
pub open spec fn decoded_fields(buf: Seq<u8>, table: int, cursor: int, n: nat) -> Option<
    Seq<FieldModel>,
>
    decreases table, 2nat, n,
{
    if n == 0 {
        Some(Seq::empty())
    } else if table < 0 {
        None
    } else {
        match decoded_field(buf, table, cursor) {
            None => None,
            Some((first, next)) => match decoded_fields(buf, table, next, (n - 1) as nat) {
                None => None,
                Some(rest) => Some(seq![first] + rest),
            },
        }
    }
}

/// The record whose table starts at `at`, if the bytes there are one.
pub open spec fn decoded(buf: Seq<u8>, at: int) -> Option<RecordModel>
    decreases at, 3nat, 0nat,
{
    if at < 0 || at + 4 > buf.len() {
        None
    } else {
        match decoded_fields(buf, at, at + 4, le_u32_at(buf, at) as nat) {
            None => None,
            Some(fields) => Some(RecordModel { fields }),
        }
    }
}

/// Where the root table of an artifact file starts, if the file is long
/// enough to say.
pub open spec fn root_table_at(buf: Seq<u8>) -> Option<int> {
    if buf.len() < 12 {
        None
    } else {
        let distance = le_u32_at(buf, buf.len() - 4);
        if distance < 4 || distance > buf.len() - 8 {
            None
        } else {
            Some(buf.len() - 4 - distance)
        }
    }
}

/// The root record of an artifact file with the given tag.
pub open spec fn decoded_root(tag: Seq<u8>, buf: Seq<u8>) -> Option<RecordModel> {
    match root_table_at(buf) {
        None => None,
        Some(at) => if buf.subrange(0, 4) == tag {
            decoded(buf, at)
        } else {
            None
        },
    }
}

} // verus!
