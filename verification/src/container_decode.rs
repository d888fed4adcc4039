//! The reader of the binary container.

use vstd::prelude::*;
use vstd::slice::{slice_subrange, slice_to_vec};
use crate::wire::read_u32;
use crate::container::{
    decoded, decoded_field, decoded_fields, decoded_root, decoded_targets, fields_model,
    records_model, root_table_at, Field, FieldModel, Record, RecordModel, KIND_BYTES,
    KIND_INLINE, KIND_TABLE, KIND_TABLES, KIND_VALUES,
};
use crate::container_encode::{lemma_fields_model, lemma_records_model};

verus! {

/// Why an artifact file could not be read.
#[derive(Clone, Copy, Debug, PartialEq, Eq, Structural)]
pub enum DecodeError {
    /// The file is too short to hold a tag and a root table, or the length
    /// of the root table that it ends with cannot be right.
    NoRoot,
    /// The file does not start with the expected tag.
    WrongTag,
    /// A table reaches outside the file, names an unknown slot kind or holds
    /// an offset that does not point backwards.
    Malformed,
}

/// Why a file without a root record has none: the first of the three reasons
/// that holds.
pub open spec fn root_error(tag: Seq<u8>, buf: Seq<u8>) -> DecodeError {
    if root_table_at(buf) is None {
        DecodeError::NoRoot
    } else if buf.subrange(0, 4) != tag {
        DecodeError::WrongTag
    } else {
        DecodeError::Malformed
    }
}

/// A list of items put in front of a list that may be missing.
pub open spec fn prepend<T>(head: Seq<T>, tail: Option<Seq<T>>) -> Option<Seq<T>> {
    match tail {
        None => None,
        Some(rest) => Some(head + rest),
    }
}

fn copy_range(buf: &[u8], from: usize, to: usize) -> (r: Vec<u8>)
    requires
        from <= to <= buf@.len(),
    ensures
        r@ == buf@.subrange(from as int, to as int),
{
    slice_to_vec(slice_subrange(buf, from, to))
}

/// Reads the nested tables that the `n` offsets at `cursor` point to.
#[verifier::loop_isolation(false)]
fn decode_targets(buf: &[u8], table: usize, cursor: usize, n: u32) -> (r: Option<Vec<Record>>)
    requires
        table <= buf@.len(),
        cursor + 4 * n <= buf@.len(),
    ensures
        match r {
            Some(records) => decoded_targets(buf@, table as int, cursor as int, n as nat) == Some(
                records_model(records@, records@.len()),
            ),
            None => decoded_targets(buf@, table as int, cursor as int, n as nat) is None,
        },
    decreases table, 0nat, n,
{
    let len: usize = buf.len();
    let mut records: Vec<Record> = Vec::new();
    let ghost mut models: Seq<RecordModel> = Seq::empty();
    let mut at: usize = cursor;
    let mut k: u32 = 0;
    while k < n
        invariant
            k <= n,
            at == cursor + 4 * k,
            models == records_model(records@, records@.len()),
            decoded_targets(buf@, table as int, cursor as int, n as nat) == prepend(
                models,
                decoded_targets(buf@, table as int, at as int, (n - k) as nat),
            ),
        decreases n - k,
    {
        let distance = read_u32(buf, at);
        if distance == 0 || distance as usize > table {
            return None;
        }
        let record = match decode_record(buf, table - distance as usize) {
            Some(record) => record,
            None => {
                return None;
            },
        };
        proof {
            let rest = decoded_targets(buf@, table as int, at + 4, (n - k - 1) as nat);
            assert(prepend(models, prepend(seq![record@], rest)) == prepend(
                models.push(record@),
                rest,
            )) by {
                if rest is Some {
                    assert(models + (seq![record@] + rest->0) =~= models.push(record@) + rest->0);
                }
            }
            lemma_records_model(records@, records@.len());
            lemma_records_model(records@.push(record), records@.len() + 1);
            assert(records_model(records@.push(record), records@.len() + 1) =~= models.push(
                record@,
            ));
            models = models.push(record@);
        }
        records.push(record);
        at = at + 4;
        k = k + 1;
    }
    assert(models + Seq::<RecordModel>::empty() =~= models);
    Some(records)
}

/// Reads the field whose slot starts at `cursor`; returns it with the place
/// where the next slot starts.
fn decode_field(buf: &[u8], table: usize, cursor: usize) -> (r: Option<(Field, usize)>)
    requires
        table <= buf@.len(),
    ensures
        match r {
            Some((f, next)) => decoded_field(buf@, table as int, cursor as int) == Some(
                (f@, next as int),
            ) && next <= buf@.len(),
            None => decoded_field(buf@, table as int, cursor as int) is None,
        },
    decreases table, 1nat, 0nat,
{
    let len: usize = buf.len();
    if cursor > len || len - cursor < 8 {
        return None;
    }
    let kind = read_u32(buf, cursor);
    let first = read_u32(buf, cursor + 4);
    let rest: usize = len - cursor - 8;
    if kind == KIND_INLINE {
        if first as usize > rest {
            return None;
        }
        let start: usize = cursor + 8;
        let bytes = copy_range(buf, start, start + first as usize);
        Some((Field::Inline(bytes), start + first as usize))
    } else if kind == KIND_BYTES {
        if rest < 4 {
            return None;
        }
        let size = read_u32(buf, cursor + 8);
        if first as usize > table || size > first {
            return None;
        }
        let start: usize = table - first as usize;
        let bytes = copy_range(buf, start, start + size as usize);
        Some((Field::OffsetBytes(bytes), cursor + 12))
    } else if kind == KIND_TABLE {
        if first == 0 || first as usize > table {
            return None;
        }
        match decode_record(buf, table - first as usize) {
            Some(record) => Some((Field::OffsetTable(record), cursor + 8)),
            None => None,
        }
    } else if kind == KIND_TABLES {
        if first as u64 * 4 > rest as u64 {
            return None;
        }
        match decode_targets(buf, table, cursor + 8, first) {
            Some(records) => Some((Field::VectorOfOffsets(records), cursor + 8 + 4 * first as usize)),
            None => None,
        }
    } else if kind == KIND_VALUES {
        if rest < 8 {
            return None;
        }
        let size = read_u32(buf, cursor + 8);
        let stride = read_u32(buf, cursor + 12);
        if first as usize > table || size > first {
            return None;
        }
        let start: usize = table - first as usize;
        let bytes = copy_range(buf, start, start + size as usize);
        Some((Field::VectorOfValues { stride, bytes }, cursor + 16))
    } else {
        None
    }
}

/// Reads the record whose table starts at `at`.
#[verifier::loop_isolation(false)]
pub fn decode_record(buf: &[u8], at: usize) -> (r: Option<Record>)
    ensures
        match r {
            Some(record) => decoded(buf@, at as int) == Some(record@),
            None => decoded(buf@, at as int) is None,
        },
    decreases at, 3nat, 0nat,
{
    let len: usize = buf.len();
    if at > len || len - at < 4 {
        return None;
    }
    let n = read_u32(buf, at);
    let mut fields: Vec<Field> = Vec::new();
    let ghost mut models: Seq<FieldModel> = Seq::empty();
    let mut cursor: usize = at + 4;
    let mut i: u32 = 0;
    while i < n
        invariant
            i <= n,
            cursor <= len,
            models == fields_model(fields@, fields@.len()),
            decoded_fields(buf@, at as int, at + 4, n as nat) == prepend(
                models,
                decoded_fields(buf@, at as int, cursor as int, (n - i) as nat),
            ),
        decreases n - i,
    {
        let (field, next) = match decode_field(buf, at, cursor) {
            Some(found) => found,
            None => {
                return None;
            },
        };
        proof {
            let rest = decoded_fields(buf@, at as int, next as int, (n - i - 1) as nat);
            assert(prepend(models, prepend(seq![field@], rest)) == prepend(models.push(field@), rest))
                by {
                if rest is Some {
                    assert(models + (seq![field@] + rest->0) =~= models.push(field@) + rest->0);
                }
            }
            lemma_fields_model(fields@, fields@.len());
            lemma_fields_model(fields@.push(field), fields@.len() + 1);
            assert(fields_model(fields@.push(field), fields@.len() + 1) =~= models.push(field@));
            models = models.push(field@);
        }
        fields.push(field);
        cursor = next;
        i = i + 1;
    }
    assert(models + Seq::<FieldModel>::empty() =~= models);
    Some(Record { fields })
}

/// Reads an artifact file: checks the tag, finds the root table from the end
/// of the file and reads the root record.
///
/// Fails with `NoRoot` exactly when the file is too short or the length of
/// the root table at its end cannot be right; with `WrongTag` exactly when
/// there is a root table but the file starts with another tag; with
/// `Malformed` exactly when the tag is right and the tables cannot be read.
pub fn decode_root(tag: &[u8; 4], buf: &[u8]) -> (r: Result<Record, DecodeError>)
    ensures
        match r {
            Ok(record) => decoded_root(tag@, buf@) == Some(record@),
            Err(e) => decoded_root(tag@, buf@) is None && e == root_error(tag@, buf@),
        },
{
    let len: usize = buf.len();
    if len < 12 {
        return Err(DecodeError::NoRoot);
    }
    let distance = read_u32(buf, len - 4);
    if distance < 4 || distance as usize > len - 8 {
        return Err(DecodeError::NoRoot);
    }
    if buf[0] != tag[0] || buf[1] != tag[1] || buf[2] != tag[2] || buf[3] != tag[3] {
        assert(buf@.subrange(0, 4)[0] == buf@[0]);
        assert(buf@.subrange(0, 4)[1] == buf@[1]);
        assert(buf@.subrange(0, 4)[2] == buf@[2]);
        assert(buf@.subrange(0, 4)[3] == buf@[3]);
        return Err(DecodeError::WrongTag);
    }
    assert(buf@.subrange(0, 4) =~= tag@);
    match decode_record(buf, len - 4 - distance as usize) {
        Some(record) => Ok(record),
        None => Err(DecodeError::Malformed),
    }
}

} // verus!
