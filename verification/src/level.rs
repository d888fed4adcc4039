//! The level: the artifact that holds the entity world and the physics world
//! and names the files of the databases that belong to it.
//!
//! The databases are written as files of their own beside the level file. The
//! level refers to them by name: the name of the level, a dot, and the
//! extension of the kind of database.

use vstd::prelude::*;
use vstd::string::StringExecFns;
use crate::audio_database::AUDIO_DATABASE_EXTENSION;
use crate::container::{encoded_root, is_encodable, Field, FieldModel, Record, RecordModel};
use crate::container_encode::{encode_root, lemma_fields_model, EncodeError};
use crate::geometry_database::GEOMETRY_DATABASE_EXTENSION;
use crate::scene::Camera;
use crate::tables::{encode_words, words_bytes};
use crate::texture_database::TEXTURE_DATABASE_EXTENSION;
use crate::wire::push_bytes;

verus! {

/// The extension of a level file.
pub const LEVEL_EXTENSION: &'static str = "tlb";

/// The extension of a scene file.
pub const SCENE_EXTENSION: &'static str = "gltf";

/// The tag of a level file: `TLVL`.
pub const LEVEL_IDENTIFIER: [u8; 4] = [0x54, 0x4C, 0x56, 0x4C];

/// The name of the file of an artifact: the name of the level, a dot, the
/// extension.
pub open spec fn file_name(name: Seq<char>, extension: Seq<char>) -> Seq<char> {
    name + "."@ + extension
}

/// The root record of a level: its name, the entity world, the physics
/// world, the names of the files of the three databases, and the camera.
pub open spec fn level_record(
    name: Seq<char>,
    entities: Seq<u8>,
    physics_world: Seq<u8>,
    camera: Camera,
) -> RecordModel {
    RecordModel {
        fields: seq![
            FieldModel::Bytes(vstd::utf8::encode_utf8(name)),
            FieldModel::Values { stride: 1, bytes: entities },
            FieldModel::Values { stride: 1, bytes: physics_world },
            FieldModel::Bytes(
                vstd::utf8::encode_utf8(file_name(name, GEOMETRY_DATABASE_EXTENSION@)),
            ),
            FieldModel::Bytes(
                vstd::utf8::encode_utf8(file_name(name, TEXTURE_DATABASE_EXTENSION@)),
            ),
            FieldModel::Bytes(vstd::utf8::encode_utf8(file_name(name, AUDIO_DATABASE_EXTENSION@))),
            FieldModel::Inline(words_bytes(camera.words())),
        ],
    }
}

/// The build step that compiles a whole level.
#[derive(Debug)]
pub struct LevelResource {
    pub name: String,
}

impl LevelResource {
    pub fn new(name: String) -> (level: LevelResource)
        ensures
            level.name == name,
    {
        LevelResource { name }
    }

    /// The name of the file of one of the databases of the level.
    pub fn artifact_file_name(&self, extension: &str) -> (name: String)
        ensures
            name@ == file_name(self.name@, extension@),
    {
        self.name.clone().concat(".").concat(extension)
    }

    /// The name of the scene file that the level is compiled from.
    pub fn scene_file_name(&self) -> (name: String)
        ensures
            name@ == file_name(self.name@, SCENE_EXTENSION@),
    {
        self.artifact_file_name(SCENE_EXTENSION)
    }

    /// The name of the level file.
    pub fn level_file_name(&self) -> (name: String)
        ensures
            name@ == file_name(self.name@, LEVEL_EXTENSION@),
    {
        self.artifact_file_name(LEVEL_EXTENSION)
    }

    fn text(s: &String) -> (bytes: Vec<u8>)
        ensures
            bytes@ == vstd::utf8::encode_utf8(s@),
    {
        let mut bytes: Vec<u8> = Vec::new();
        push_bytes(&mut bytes, s.as_str().as_bytes());
        assert(bytes@ =~= vstd::utf8::encode_utf8(s@));
        bytes
    }

    fn blob(source: &[u8]) -> (bytes: Vec<u8>)
        ensures
            bytes@ == source@,
    {
        let mut bytes: Vec<u8> = Vec::new();
        push_bytes(&mut bytes, source);
        assert(bytes@ =~= source@);
        bytes
    }

    /// Assembles the level from the compiled entity world, the compiled
    /// physics world and the primary camera, and writes it as an artifact
    /// file. Fails exactly when the file would not fit 32-bit offsets.
    pub fn assemble(&self, entities: &[u8], physics_world: &[u8], camera: &Camera) -> (r: Result<
        Vec<u8>,
        EncodeError,
    >)
        ensures
            match r {
                Ok(bytes) => is_encodable(
                    level_record(self.name@, entities@, physics_world@, *camera),
                ) && bytes@ == encoded_root(
                    LEVEL_IDENTIFIER@,
                    level_record(self.name@, entities@, physics_world@, *camera),
                ),
                Err(e) => e == EncodeError::TooLarge && !is_encodable(
                    level_record(self.name@, entities@, physics_world@, *camera),
                ),
            },
    {
        let geometry_database_file = self.artifact_file_name(GEOMETRY_DATABASE_EXTENSION);
        let texture_database_file = self.artifact_file_name(TEXTURE_DATABASE_EXTENSION);
        let audio_database_file = self.artifact_file_name(AUDIO_DATABASE_EXTENSION);
        let mut fields: Vec<Field> = Vec::new();
        fields.push(Field::OffsetBytes(Self::text(&self.name)));
        fields.push(Field::VectorOfValues { stride: 1, bytes: Self::blob(entities) });
        fields.push(Field::VectorOfValues { stride: 1, bytes: Self::blob(physics_world) });
        fields.push(Field::OffsetBytes(Self::text(&geometry_database_file)));
        fields.push(Field::OffsetBytes(Self::text(&texture_database_file)));
        fields.push(Field::OffsetBytes(Self::text(&audio_database_file)));
        fields.push(Field::Inline(encode_words(&camera.to_words())));
        let record = Record { fields };
        proof {
            lemma_fields_model(record.fields@, 7);
            assert(record@.fields =~= level_record(
                self.name@,
                entities@,
                physics_world@,
                *camera,
            ).fields);
        }
        encode_root(&LEVEL_IDENTIFIER, &record)
    }
}

} // verus!
