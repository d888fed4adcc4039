//! Tables of plain records as the artifacts store them: every record is a
//! fixed number of 32-bit words, every word little-endian.

use vstd::prelude::*;
use vstd::bytes::lemma_auto_spec_u32_to_from_le_bytes;
use crate::wire::{le_bytes, le_u32_at, push_u32, read_u32};

verus! {

/// The bytes of a list of words.
pub open spec fn words_bytes(words: Seq<u32>) -> Seq<u8>
    decreases words.len(),
{
    if words.len() == 0 {
        Seq::empty()
    } else {
        words_bytes(words.drop_last()) + le_bytes(words.last())
    }
}

/// The words that a byte string of whole words holds.
pub open spec fn bytes_words(bytes: Seq<u8>) -> Seq<u32> {
    Seq::new(bytes.len() / 4, |i: int| le_u32_at(bytes, 4 * i))
}

/// A list of `n` words has `4 * n` bytes.
pub proof fn lemma_words_bytes_len(words: Seq<u32>)
    ensures
        words_bytes(words).len() == 4 * words.len(),
    decreases words.len(),
{
    lemma_auto_spec_u32_to_from_le_bytes();
    if words.len() > 0 {
        lemma_words_bytes_len(words.drop_last());
    }
}

/// Each word is read back from its place in the bytes.
pub proof fn lemma_word_at(words: Seq<u32>, i: int)
    requires
        0 <= i < words.len(),
    ensures
        le_u32_at(words_bytes(words), 4 * i) == words[i],
    decreases words.len(),
{
    lemma_auto_spec_u32_to_from_le_bytes();
    lemma_words_bytes_len(words);
    lemma_words_bytes_len(words.drop_last());
    let bytes = words_bytes(words);
    let shorter = words_bytes(words.drop_last());
    if i == words.len() - 1 {
        assert(bytes.subrange(4 * i, 4 * i + 4) =~= le_bytes(words.last()));
    } else {
        lemma_word_at(words.drop_last(), i);
        assert(bytes.subrange(4 * i, 4 * i + 4) =~= shorter.subrange(4 * i, 4 * i + 4));
    }
}

/// Reading the words of the bytes of a list of words gives the list back.
pub proof fn lemma_words_round_trip(words: Seq<u32>)
    ensures
        bytes_words(words_bytes(words)) == words,
{
    lemma_words_bytes_len(words);
    assert forall|i: int| 0 <= i < words.len() implies bytes_words(words_bytes(words))[i]
        == words[i] by {
        lemma_word_at(words, i);
    }
    assert(bytes_words(words_bytes(words)) =~= words);
}

/// Writes a list of words out as bytes.
pub fn encode_words(words: &Vec<u32>) -> (bytes: Vec<u8>)
    ensures
        bytes@ == words_bytes(words@),
        bytes@.len() == 4 * words@.len(),
{
    let mut bytes: Vec<u8> = Vec::new();
    let mut i: usize = 0;
    while i < words.len()
        invariant
            i <= words@.len(),
            bytes@ == words_bytes(words@.take(i as int)),
        decreases words@.len() - i,
    {
        push_u32(&mut bytes, words[i]);
        proof {
            let next = words@.take(i + 1);
            assert(next.drop_last() =~= words@.take(i as int));
        }
        i = i + 1;
    }
    proof {
        assert(words@.take(words@.len() as int) =~= words@);
        lemma_words_bytes_len(words@);
    }
    bytes
}

/// Reads the words of a byte string; there are none to read if the string
/// does not consist of whole words.
pub fn decode_words(bytes: &[u8]) -> (words: Option<Vec<u32>>)
    ensures
        words is Some <==> bytes@.len() % 4 == 0,
        words matches Some(w) ==> w@ == bytes_words(bytes@),
{
    if bytes.len() % 4 != 0 {
        return None;
    }
    let count: usize = bytes.len() / 4;
    let mut words: Vec<u32> = Vec::new();
    let mut i: usize = 0;
    while i < count
        invariant
            i <= count,
            count == bytes@.len() / 4,
            bytes@.len() % 4 == 0,
            bytes@.len() <= usize::MAX,
            words@.len() == i,
            forall|j: int| 0 <= j < i ==> words@[j] == le_u32_at(bytes@, 4 * j),
        decreases count - i,
    {
        words.push(read_u32(bytes, 4 * i));
        i = i + 1;
    }
    assert(words@ =~= bytes_words(bytes@));
    Some(words)
}

/// The bytes of whole words are the bytes of the words they hold.
pub proof fn lemma_bytes_round_trip(bytes: Seq<u8>)
    requires
        bytes.len() % 4 == 0,
    ensures
        words_bytes(bytes_words(bytes)) == bytes,
    decreases bytes.len(),
{
    lemma_auto_spec_u32_to_from_le_bytes();
    let words = bytes_words(bytes);
    if bytes.len() > 0 {
        let shorter = bytes.subrange(0, bytes.len() - 4);
        lemma_bytes_round_trip(shorter);
        assert(bytes_words(shorter) =~= words.drop_last()) by {
            assert forall|i: int| 0 <= i < words.len() - 1 implies bytes_words(shorter)[i]
                == words[i] by {
                assert(shorter.subrange(4 * i, 4 * i + 4) =~= bytes.subrange(4 * i, 4 * i + 4));
            }
        }
        let tail = bytes.subrange(bytes.len() - 4, bytes.len() as int);
        assert(words.last() == le_u32_at(bytes, bytes.len() - 4));
        assert(le_bytes(words.last()) == tail);
        assert(shorter + tail =~= bytes);
    } else {
        assert(words =~= Seq::<u32>::empty());
        assert(bytes =~= Seq::<u8>::empty());
    }
}

/// A plain record: a value that is stored as a fixed number of words.
pub trait PlainRecord: Sized {
    /// The number of words of a record.
    spec fn word_count() -> nat;

    /// The words of the record.
    spec fn words(&self) -> Seq<u32>;

    /// The record that the words are of.
    spec fn from_words(words: Seq<u32>) -> Self;

    /// A record has as many words as its kind says, at least one, and is the
    /// record of its words.
    proof fn lemma_words(&self)
        ensures
            Self::word_count() > 0,
            self.words().len() == Self::word_count(),
            Self::from_words(self.words()) == *self,
    ;

    /// The words of the record of some words are those words.
    proof fn lemma_from_words(words: Seq<u32>)
        requires
            words.len() == Self::word_count(),
        ensures
            Self::from_words(words).words() == words,
    ;

    fn width() -> (n: usize)
        ensures
            n == Self::word_count(),
            n > 0,
    ;

    /// Appends the words of the record.
    fn push_words(&self, out: &mut Vec<u32>)
        ensures
            final(out)@ == old(out)@ + self.words(),
    ;

    /// Reads the record whose words start at `at`.
    fn read(words: &Vec<u32>, at: usize) -> (r: Self)
        requires
            at + Self::word_count() <= words@.len(),
        ensures
            r == Self::from_words(words@.subrange(at as int, at + Self::word_count())),
    ;
}

/// The words of a table: those of its records, one after the other.
pub open spec fn table_words<T: PlainRecord>(table: Seq<T>) -> Seq<u32>
    decreases table.len(),
{
    if table.len() == 0 {
        Seq::empty()
    } else {
        table_words(table.drop_last()) + table.last().words()
    }
}

/// The bytes of a table.
pub open spec fn table_bytes<T: PlainRecord>(table: Seq<T>) -> Seq<u8> {
    words_bytes(table_words(table))
}

/// Adding a record to a table adds its words.
pub proof fn lemma_table_words_push<T: PlainRecord>(table: Seq<T>, record: T)
    ensures
        table_words(table.push(record)) == table_words(table) + record.words(),
{
    assert(table.push(record).drop_last() =~= table);
}

/// A table of `n` records has `n` times the words of one.
pub proof fn lemma_table_words_len<T: PlainRecord>(table: Seq<T>)
    ensures
        table_words(table).len() == table.len() * T::word_count(),
    decreases table.len(),
{
    if table.len() > 0 {
        lemma_table_words_len(table.drop_last());
        table.last().lemma_words();
        assert((table.len() - 1) * T::word_count() + T::word_count() == table.len()
            * T::word_count()) by (nonlinear_arith);
    } else {
        assert(0 * T::word_count() == 0) by (nonlinear_arith);
    }
}

/// Two tables with the same words are the same table.
pub proof fn lemma_table_words_injective<T: PlainRecord>(a: Seq<T>, b: Seq<T>)
    requires
        table_words(a) == table_words(b),
    ensures
        a == b,
    decreases a.len(),
{
    lemma_table_words_len(a);
    lemma_table_words_len(b);
    if a.len() == 0 {
        if b.len() > 0 {
            b.last().lemma_words();
            assert(b.len() * T::word_count() > 0) by (nonlinear_arith)
                requires
                    b.len() > 0,
                    T::word_count() > 0,
            ;
        }
        assert(a =~= b);
    } else {
        a.last().lemma_words();
        if b.len() == 0 {
            assert(a.len() * T::word_count() > 0) by (nonlinear_arith)
                requires
                    a.len() > 0,
                    T::word_count() > 0,
            ;
        }
        b.last().lemma_words();
        let wa = table_words(a.drop_last());
        let wb = table_words(b.drop_last());
        let all = table_words(a);
        lemma_table_words_len(a.drop_last());
        lemma_table_words_len(b.drop_last());
        assert(a.len() == b.len()) by (nonlinear_arith)
            requires
                a.len() * T::word_count() == b.len() * T::word_count(),
                T::word_count() > 0,
        ;
        assert(wa.len() == wb.len());
        assert(all.subrange(0, wa.len() as int) =~= wa);
        assert(all.subrange(0, wb.len() as int) =~= wb);
        assert(all.subrange(wa.len() as int, all.len() as int) =~= a.last().words());
        assert(all.subrange(wb.len() as int, all.len() as int) =~= b.last().words());
        lemma_table_words_injective(a.drop_last(), b.drop_last());
        assert(a =~= a.drop_last().push(a.last()));
        assert(b =~= b.drop_last().push(b.last()));
    }
}

/// Two tables with the same bytes are the same table.
pub proof fn lemma_table_bytes_injective<T: PlainRecord>(a: Seq<T>, b: Seq<T>)
    requires
        table_bytes(a) == table_bytes(b),
    ensures
        a == b,
{
    lemma_words_round_trip(table_words(a));
    lemma_words_round_trip(table_words(b));
    lemma_table_words_injective(a, b);
}

/// Writes a table out as bytes.
pub fn encode_table<T: PlainRecord>(table: &Vec<T>) -> (bytes: Vec<u8>)
    ensures
        bytes@ == table_bytes(table@),
{
    let mut words: Vec<u32> = Vec::new();
    let mut i: usize = 0;
    while i < table.len()
        invariant
            i <= table@.len(),
            words@ == table_words(table@.take(i as int)),
        decreases table@.len() - i,
    {
        table[i].push_words(&mut words);
        proof {
            lemma_table_words_push(table@.take(i as int), table@[i as int]);
            assert(table@.take(i + 1) =~= table@.take(i as int).push(table@[i as int]));
        }
        i = i + 1;
    }
    assert(table@.take(table@.len() as int) =~= table@);
    encode_words(&words)
}

/// Reads a table from the bytes of whole records. There is no table to read
/// if the bytes are not whole records.
pub fn decode_table<T: PlainRecord>(bytes: &[u8]) -> (table: Option<Vec<T>>)
    ensures
        table matches Some(t) ==> table_bytes(t@) == bytes@,
        table is None ==> forall|t: Seq<T>| table_bytes(t) != bytes@,
{
    let width: usize = T::width();
    let words = match decode_words(bytes) {
        Some(words) => words,
        None => {
            proof {
                assert forall|t: Seq<T>| table_bytes(t) != bytes@ by {
                    lemma_words_bytes_len(table_words(t));
                }
            }
            return None;
        },
    };
    let mut table: Vec<T> = Vec::new();
    let mut at: usize = 0;
    while words.len() - at >= width
        invariant
            at <= words@.len(),
            width == T::word_count(),
            width > 0,
            table_words(table@) == words@.take(at as int),
        decreases words@.len() - at,
    {
        let record = T::read(&words, at);
        proof {
            let part = words@.subrange(at as int, at + width);
            T::lemma_from_words(part);
            lemma_table_words_push(table@, record);
            assert(words@.take(at + width) =~= words@.take(at as int) + part);
        }
        table.push(record);
        at = at + width;
    }
    proof {
        lemma_bytes_round_trip(bytes@);
    }
    if at != words.len() {
        proof {
            assert forall|t: Seq<T>| table_bytes(t) != bytes@ by {
                if table_bytes(t) == bytes@ {
                    lemma_words_round_trip(table_words(t));
                    lemma_table_words_len(t);
                    lemma_table_words_len(table@);
                    lemma_no_partial_record(
                        t.len() as int,
                        table@.len() as int,
                        width as int,
                        words@.len() - at,
                    );
                }
            }
        }
        return None;
    }
    assert(words@.take(words@.len() as int) =~= words@);
    Some(table)
}

/// A whole number of records never ends in the middle of one.
proof fn lemma_no_partial_record(n: int, m: int, width: int, rest: int)
    requires
        0 < rest < width,
    ensures
        n * width != m * width + rest,
{
    assert((n - m) * width == n * width - m * width) by (nonlinear_arith);
    if n - m <= 0 {
        assert((n - m) * width <= 0) by (nonlinear_arith)
            requires
                n - m <= 0,
                width > 0,
        ;
    } else {
        assert((n - m) * width >= width) by (nonlinear_arith)
            requires
                n - m >= 1,
                width > 0,
        ;
    }
}

} // verus!
