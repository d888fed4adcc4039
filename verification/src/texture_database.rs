//! The texture database: the compressed textures of a level in one buffer,
//! with a table that maps an image index to its texture.

use std::sync::Arc;
use vstd::prelude::*;
use crate::compiler::AsyncCompiler;
use crate::container::{
    decoded_root, encoded_root, is_encodable, Field, FieldModel, Record, RecordModel,
};
use crate::container_decode::{decode_root, root_error, DecodeError};
use crate::container_encode::{encode_root, lemma_fields_model, EncodeError};
use crate::resources::Resource;
use crate::scene::{strictly_ascending, Scene};
use crate::container_laws::lemma_round_trip;
use crate::tables::{
    decode_table, encode_table, lemma_table_bytes_injective, table_bytes, PlainRecord,
};
use crate::texture::{CompiledTextureData, TextureData};
use crate::wire::push_bytes;

verus! {

/// The extension of a texture database file.
pub const TEXTURE_DATABASE_EXTENSION: &'static str = "ttb";

/// The tag of a texture database file: `TTDB`.
pub const TEXTURE_DATABASE_IDENTIFIER: [u8; 4] = [0x54, 0x54, 0x44, 0x42];

/// One entry of the texture table: the index of an image of the scene, which
/// is the key, the range of the data buffer that holds the compressed
/// texture, in bytes, and what the texture is.
#[derive(Clone, Copy, Debug, PartialEq, Eq, Structural)]
pub struct TextureMapping {
    pub index: u32,
    pub texture_data_offset: u32,
    pub texture_data_size: u32,
    pub texture_data: TextureData,
}

impl TextureMapping {
    pub fn new(index: u32, texture_data_offset: u32, texture_data_size: u32, texture_data: &TextureData) -> (r:
        TextureMapping)
        ensures
            r == (TextureMapping {
                index,
                texture_data_offset,
                texture_data_size,
                texture_data: *texture_data,
            }),
    {
        TextureMapping { index, texture_data_offset, texture_data_size, texture_data: *texture_data }
    }

    pub fn key_compare_less_than(&self, o: &TextureMapping) -> (r: bool)
        ensures
            r == (self.index < o.index),
    {
        self.index < o.index
    }
}

impl PlainRecord for TextureMapping {
    open spec fn word_count() -> nat {
        7
    }

    open spec fn words(&self) -> Seq<u32> {
        seq![
            self.index,
            self.texture_data_offset,
            self.texture_data_size,
            self.texture_data.width,
            self.texture_data.height,
            self.texture_data.format,
            self.texture_data.color_space,
        ]
    }

    open spec fn from_words(words: Seq<u32>) -> TextureMapping {
        TextureMapping {
            index: words[0],
            texture_data_offset: words[1],
            texture_data_size: words[2],
            texture_data: TextureData {
                width: words[3],
                height: words[4],
                format: words[5],
                color_space: words[6],
            },
        }
    }

    proof fn lemma_words(&self) {
    }

    proof fn lemma_from_words(words: Seq<u32>) {
        assert(Self::from_words(words).words() =~= words);
    }

    fn width() -> (n: usize) {
        7
    }

    fn push_words(&self, out: &mut Vec<u32>) {
        out.push(self.index);
        out.push(self.texture_data_offset);
        out.push(self.texture_data_size);
        out.push(self.texture_data.width);
        out.push(self.texture_data.height);
        out.push(self.texture_data.format);
        out.push(self.texture_data.color_space);
        assert(out@ =~= old(out)@ + self.words());
    }

    fn read(words: &Vec<u32>, at: usize) -> (r: TextureMapping) {
        let limit: usize = words.len();
        TextureMapping {
            index: words[at],
            texture_data_offset: words[at + 1],
            texture_data_size: words[at + 2],
            texture_data: TextureData {
                width: words[at + 3],
                height: words[at + 4],
                format: words[at + 5],
                color_space: words[at + 6],
            },
        }
    }
}

/// The keys of the texture table rise strictly from entry to entry.
pub open spec fn texture_mappings_sorted(mappings: Seq<TextureMapping>) -> bool {
    forall|i: int, j: int| 0 <= i < j < mappings.len() ==> mappings[i].index < mappings[j].index
}

pub fn check_texture_mappings_sorted(mappings: &Vec<TextureMapping>) -> (b: bool)
    ensures
        b == texture_mappings_sorted(mappings@),
{
    let mut i: usize = 1;
    while i < mappings.len()
        invariant
            1 <= i,
            forall|a: int, b: int|
                0 <= a < b < i && b < mappings@.len() ==> mappings@[a].index < mappings@[b].index,
        decreases mappings@.len() - i,
    {
        if !mappings[i - 1].key_compare_less_than(&mappings[i]) {
            return false;
        }
        assert forall|a: int, b: int| 0 <= a < b < i + 1 && b < mappings@.len() implies mappings@[a].index
            < mappings@[b].index by {
            if b == i && a < i - 1 {
                assert(mappings@[a].index < mappings@[i - 1].index);
            }
        }
        i = i + 1;
    }
    true
}

/// The textures of a level.
pub struct TextureDatabase {
    /// The compressed textures, one after the other.
    pub texture_data_buffer: Vec<u8>,
    /// Where each texture lies, sorted by image index.
    pub mappings: Vec<TextureMapping>,
}

/// Why a texture database could not be built.
#[derive(Clone, Copy, Debug, PartialEq, Eq, Structural)]
pub enum TextureError {
    /// The textures have more bytes, or an image a higher index, than 32 bits
    /// can hold.
    TooLarge,
}

/// Why a texture database could not be read.
#[derive(Clone, Copy, Debug, PartialEq, Eq, Structural)]
pub enum TextureDecodeError {
    /// The file is no container with the tag of a texture database.
    Container(DecodeError),
    /// The root record does not hold the two tables of a texture database.
    WrongShape,
    /// The texture table is not strictly ascending by image index.
    NotSorted,
}

/// The number of bytes of the first `n` textures.
pub open spec fn data_sum(textures: Seq<CompiledTextureData>, n: nat) -> int
    decreases n,
{
    if n == 0 || n > textures.len() {
        0
    } else {
        data_sum(textures, (n - 1) as nat) + textures[n - 1].data@.len()
    }
}

/// The data buffer of the first `n` textures.
pub open spec fn database_data(textures: Seq<CompiledTextureData>, n: nat) -> Seq<u8>
    decreases n,
{
    if n == 0 || n > textures.len() {
        Seq::empty()
    } else {
        database_data(textures, (n - 1) as nat) + textures[n - 1].data@
    }
}

/// The entry of the texture table for texture `i`.
pub open spec fn database_mapping(keys: Seq<usize>, textures: Seq<CompiledTextureData>, i: int) -> TextureMapping {
    TextureMapping {
        index: keys[i] as u32,
        texture_data_offset: data_sum(textures, i as nat) as u32,
        texture_data_size: textures[i].data@.len() as u32,
        texture_data: textures[i].texture_info,
    }
}

/// The textures fit the database.
pub open spec fn textures_fit(keys: Seq<usize>, textures: Seq<CompiledTextureData>) -> bool {
    &&& data_sum(textures, textures.len()) <= u32::MAX
    &&& forall|i: int| 0 <= i < keys.len() ==> (#[trigger] keys[i]) <= u32::MAX
}

/// The bytes only grow as more textures are counted.
pub proof fn lemma_data_sum_monotonic(textures: Seq<CompiledTextureData>, a: nat, b: nat)
    requires
        a <= b <= textures.len(),
    ensures
        0 <= data_sum(textures, a) <= data_sum(textures, b),
        database_data(textures, a).len() == data_sum(textures, a),
    decreases b - a, a,
{
    if a < b {
        lemma_data_sum_monotonic(textures, a, (b - 1) as nat);
    } else if a > 0 {
        lemma_data_sum_monotonic(textures, (a - 1) as nat, (a - 1) as nat);
    }
}

impl TextureDatabase {
    /// The root record of the database: the data as a vector of bytes and
    /// the texture table as a vector of plain values.
    pub open spec fn record_model(&self) -> RecordModel {
        RecordModel {
            fields: seq![
                FieldModel::Values { stride: 1, bytes: self.texture_data_buffer@ },
                FieldModel::Values { stride: 28, bytes: table_bytes(self.mappings@) },
            ],
        }
    }

    /// The invariant that readers rely on: the texture table can be searched
    /// by key.
    pub open spec fn wf(&self) -> bool {
        texture_mappings_sorted(self.mappings@)
    }

    /// Builds the texture database from the compressed textures of the
    /// images `keys`, which are ascending. The textures are laid out in that
    /// order; the texture table gets one entry for each and is strictly
    /// ascending by key. Fails exactly when something does not fit 32 bits.
    pub fn build(keys: &Vec<usize>, textures: &Vec<CompiledTextureData>) -> (r: Result<
        TextureDatabase,
        TextureError,
    >)
        requires
            keys@.len() == textures@.len(),
            strictly_ascending(keys@),
        ensures
            r is Ok <==> textures_fit(keys@, textures@),
            r matches Ok(database) ==> {
                &&& database.texture_data_buffer@ == database_data(textures@, textures@.len())
                &&& database.mappings@.len() == textures@.len()
                &&& forall|i: int|
                    0 <= i < textures@.len() ==> #[trigger] database.mappings@[i]
                        == database_mapping(keys@, textures@, i)
                &&& database.wf()
            },
    {
        let mut database = TextureDatabase {
            texture_data_buffer: Vec::new(),
            mappings: Vec::new(),
        };
        let mut i: usize = 0;
        while i < textures.len()
            invariant
                i <= textures@.len(),
                keys@.len() == textures@.len(),
                strictly_ascending(keys@),
                database.texture_data_buffer@ == database_data(textures@, i as nat),
                database.texture_data_buffer@.len() <= u32::MAX,
                database.mappings@.len() == i,
                forall|j: int| 0 <= j < i ==> (#[trigger] keys@[j]) <= u32::MAX,
                forall|j: int|
                    0 <= j < i ==> #[trigger] database.mappings@[j] == database_mapping(
                        keys@,
                        textures@,
                        j,
                    ),
            decreases textures@.len() - i,
        {
            let texture = &textures[i];
            let offset: usize = database.texture_data_buffer.len();
            proof {
                lemma_data_sum_monotonic(textures@, i as nat, i as nat);
                lemma_data_sum_monotonic(textures@, (i + 1) as nat, textures@.len());
            }
            if keys[i] > u32::MAX as usize || texture.data.len() > u32::MAX as usize - offset {
                return Err(TextureError::TooLarge);
            }
            database.mappings.push(
                TextureMapping::new(
                    keys[i] as u32,
                    offset as u32,
                    texture.data.len() as u32,
                    &texture.texture_info,
                ),
            );
            push_bytes(&mut database.texture_data_buffer, texture.data.as_slice());
            i = i + 1;
        }
        proof {
            lemma_data_sum_monotonic(textures@, textures@.len(), textures@.len());
            assert forall|a: int, b: int| 0 <= a < b < database.mappings@.len() implies database.mappings@[a].index
                < database.mappings@[b].index by {
                assert(database.mappings@[a] == database_mapping(keys@, textures@, a));
                assert(database.mappings@[b] == database_mapping(keys@, textures@, b));
                assert(keys@[a] <= u32::MAX);
                assert(keys@[b] <= u32::MAX);
            }
        }
        Ok(database)
    }

    /// The root record of the database.
    pub fn to_record(&self) -> (record: Record)
        ensures
            record@ == self.record_model(),
    {
        let mut data: Vec<u8> = Vec::new();
        push_bytes(&mut data, self.texture_data_buffer.as_slice());
        assert(data@ =~= self.texture_data_buffer@);
        let mut fields: Vec<Field> = Vec::new();
        fields.push(Field::VectorOfValues { stride: 1, bytes: data });
        fields.push(Field::VectorOfValues { stride: 28, bytes: encode_table(&self.mappings) });
        let record = Record { fields };
        proof {
            lemma_fields_model(record.fields@, 2);
            assert(record@.fields =~= self.record_model().fields);
        }
        record
    }

    /// Writes the database as an artifact file. Fails exactly when the file
    /// would not fit 32-bit offsets.
    pub fn encode(&self) -> (r: Result<Vec<u8>, EncodeError>)
        ensures
            match r {
                Ok(bytes) => is_encodable(self.record_model()) && bytes@ == encoded_root(
                    TEXTURE_DATABASE_IDENTIFIER@,
                    self.record_model(),
                ),
                Err(e) => e == EncodeError::TooLarge && !is_encodable(self.record_model()),
            },
    {
        let record = self.to_record();
        encode_root(&TEXTURE_DATABASE_IDENTIFIER, &record)
    }

    /// The database holds the same data and the same table as `other`.
    pub open spec fn same_as(&self, other: &TextureDatabase) -> bool {
        &&& self.texture_data_buffer@ == other.texture_data_buffer@
        &&& self.mappings@ == other.mappings@
    }

    /// What reading the file `bytes` gives.
    ///
    /// It is a database when the file is a container with the tag of a
    /// texture database whose root record is that of a database with a sorted
    /// texture table: then it is a database with that record. It is
    /// `Container`, with the reason, when the file is no such container;
    /// `WrongShape` when the root record is not a vector of bytes and a table
    /// of whole entries; `NotSorted` when it is but the texture table is not
    /// strictly ascending.
    pub open spec fn is_reading_of(
        bytes: Seq<u8>,
        r: Result<TextureDatabase, TextureDecodeError>,
    ) -> bool {
        let root = decoded_root(TEXTURE_DATABASE_IDENTIFIER@, bytes);
        match r {
            Ok(database) => root == Some(database.record_model()) && database.wf(),
            Err(TextureDecodeError::Container(e)) => root is None && e == root_error(
                TEXTURE_DATABASE_IDENTIFIER@,
                bytes,
            ),
            Err(TextureDecodeError::WrongShape) => root is Some && forall|database: TextureDatabase|
                root != Some(#[trigger] database.record_model()),
            Err(TextureDecodeError::NotSorted) => exists|database: TextureDatabase|
                root == Some(#[trigger] database.record_model()) && !database.wf(),
        }
    }

    /// Reads a database from an artifact file. A database that is read has a
    /// texture table that is strictly ascending by key.
    pub fn decode(bytes: &[u8]) -> (r: Result<TextureDatabase, TextureDecodeError>)
        ensures
            Self::is_reading_of(bytes@, r),
            r matches Ok(database) ==> database.wf(),
    {
        let record = match decode_root(&TEXTURE_DATABASE_IDENTIFIER, bytes) {
            Ok(record) => record,
            Err(e) => {
                return Err(TextureDecodeError::Container(e));
            },
        };
        proof {
            lemma_fields_model(record.fields@, record.fields@.len());
        }
        if record.fields.len() != 2 {
            return Err(TextureDecodeError::WrongShape);
        }
        match (&record.fields[0], &record.fields[1]) {
            (
                Field::VectorOfValues { stride: data_stride, bytes: data },
                Field::VectorOfValues { stride: table_stride, bytes: table },
            ) => {
                if *data_stride == 1 && *table_stride == 28 {
                    match decode_table::<TextureMapping>(table.as_slice()) {
                        Some(mappings) => {
                            let mut texture_data_buffer: Vec<u8> = Vec::new();
                            push_bytes(&mut texture_data_buffer, data.as_slice());
                            assert(texture_data_buffer@ =~= data@);
                            let database = TextureDatabase { texture_data_buffer, mappings };
                            assert(record@.fields =~= database.record_model().fields);
                            if !check_texture_mappings_sorted(&database.mappings) {
                                return Err(TextureDecodeError::NotSorted);
                            }
                            return Ok(database);
                        },
                        None => {},
                    }
                }
            },
            _ => {},
        }
        assert forall|database: TextureDatabase|
            record@ != #[trigger] database.record_model() by {
            if record@ == database.record_model() {
                assert(record@.fields[0] == database.record_model().fields[0]);
                assert(record@.fields[1] == database.record_model().fields[1]);
            }
        }
        Err(TextureDecodeError::WrongShape)
    }
}

/// A database is fixed by its root record: two databases with the same root
/// record hold the same data and the same table.
pub proof fn lemma_record_fixes_textures(a: &TextureDatabase, b: &TextureDatabase)
    requires
        a.record_model() == b.record_model(),
    ensures
        a.same_as(b),
{
    let fa = a.record_model().fields;
    let fb = b.record_model().fields;
    assert(fa[0] == fb[0]);
    assert(fa[1] == fb[1]);
    lemma_table_bytes_injective(a.mappings@, b.mappings@);
}

/// Round trip: a database with a sorted texture table that fits a file is
/// read back from the file that it was written to.
pub proof fn lemma_textures_round_trip(
    database: &TextureDatabase,
    read: Result<TextureDatabase, TextureDecodeError>,
)
    requires
        database.wf(),
        is_encodable(database.record_model()),
        TextureDatabase::is_reading_of(
            encoded_root(TEXTURE_DATABASE_IDENTIFIER@, database.record_model()),
            read,
        ),
    ensures
        read matches Ok(copy) && copy.same_as(database),
{
    lemma_round_trip(TEXTURE_DATABASE_IDENTIFIER@, database.record_model());
    match read {
        Ok(copy) => {
            lemma_record_fixes_textures(&copy, database);
        },
        Err(TextureDecodeError::Container(_)) => {},
        Err(TextureDecodeError::WrongShape) => {},
        Err(TextureDecodeError::NotSorted) => {
            let bytes = encoded_root(TEXTURE_DATABASE_IDENTIFIER@, database.record_model());
            let other = choose|other: TextureDatabase|
                decoded_root(TEXTURE_DATABASE_IDENTIFIER@, bytes) == Some(
                    #[trigger] other.record_model(),
                ) && !other.wf();
            lemma_record_fixes_textures(&other, database);
        },
    }
}

/// The build step that compiles the texture database of a level. It holds
/// one compressed texture for each image in use, in the order of the scene.
pub struct TextureDatabaseResource {
    pub scene: Arc<Scene>,
    pub textures: Vec<CompiledTextureData>,
}

impl TextureDatabaseResource {
    pub fn new(scene: Arc<Scene>, textures: Vec<CompiledTextureData>) -> (r: TextureDatabaseResource)
        ensures
            r.scene == scene,
            r.textures == textures,
    {
        TextureDatabaseResource { scene, textures }
    }
}

impl Resource for TextureDatabaseResource {
    type ReturnValue = Result<TextureDatabase, TextureError>;

    /// The scene is sound and there is one texture for each image in use.
    open spec fn is_ready(&self) -> bool {
        &&& self.scene.wf()
        &&& self.textures@.len() == self.scene.textures@.len()
    }

    /// There is a database exactly when the textures fit; it holds them in
    /// the order of the scene, and its table is strictly ascending by key.
    open spec fn yields(&self, value: &Result<TextureDatabase, TextureError>) -> bool {
        &&& value is Ok <==> textures_fit(self.scene.textures@, self.textures@)
        &&& value matches Ok(database) ==> {
            &&& database.texture_data_buffer@ == database_data(
                self.textures@,
                self.textures@.len(),
            )
            &&& database.mappings@.len() == self.textures@.len()
            &&& forall|i: int|
                0 <= i < self.textures@.len() ==> #[trigger] database.mappings@[i]
                    == database_mapping(self.scene.textures@, self.textures@, i)
            &&& database.wf()
        }
    }

    fn compile(&self, compiler: Arc<AsyncCompiler>) -> (value: Result<TextureDatabase, TextureError>) {
        TextureDatabase::build(&self.scene.textures, &self.textures)
    }
}

} // verus!
