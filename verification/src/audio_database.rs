//! The audio database: the background music of a level.

use std::sync::Arc;
use vstd::prelude::*;
use crate::compiler::AsyncCompiler;
use crate::container::{
    decoded_root, encoded_root, is_encodable, Field, FieldModel, Record, RecordModel,
};
use crate::container_decode::{decode_root, root_error, DecodeError};
use crate::container_encode::{encode_root, lemma_fields_model, EncodeError};
use crate::container_laws::lemma_round_trip;
use crate::resources::Resource;
use crate::wire::push_bytes;

verus! {

/// The extension of an audio database file.
pub const AUDIO_DATABASE_EXTENSION: &'static str = "tab";

/// The tag of an audio database file: `TADB`.
pub const AUDIO_DATABASE_IDENTIFIER: [u8; 4] = [0x54, 0x41, 0x44, 0x42];

/// The file that the background music of every level is read from.
pub const BACKGROUND_MUSIC_FILE: &'static str = "file_example_oog_48.ogg";

/// The root record of an audio database: the music as a vector of bytes.
pub open spec fn audio_record(background_music: Seq<u8>) -> RecordModel {
    RecordModel { fields: seq![FieldModel::Values { stride: 1, bytes: background_music }] }
}

/// Why an audio database could not be read.
#[derive(Clone, Copy, Debug, PartialEq, Eq, Structural)]
pub enum AudioDecodeError {
    /// The file is no container with the tag of an audio database.
    Container(DecodeError),
    /// The root record is not one vector of bytes.
    WrongShape,
}

/// The build step that compiles the audio database. It holds the music as it
/// was read from its file.
#[derive(Debug)]
pub struct AudioDatabaseResource {
    pub background_music: Vec<u8>,
}

impl AudioDatabaseResource {
    pub fn new(background_music: Vec<u8>) -> (r: AudioDatabaseResource)
        ensures
            r.background_music == background_music,
    {
        AudioDatabaseResource { background_music }
    }

    /// What reading the file `bytes` gives: the music, when the file is a
    /// container with the tag of an audio database whose root record is one
    /// vector of bytes; `Container`, with the reason, when it is no such
    /// container; `WrongShape` when the root record is something else.
    pub open spec fn is_reading_of(
        bytes: Seq<u8>,
        r: Result<AudioDatabaseResource, AudioDecodeError>,
    ) -> bool {
        let root = decoded_root(AUDIO_DATABASE_IDENTIFIER@, bytes);
        match r {
            Ok(audio) => root == Some(audio_record(audio.background_music@)),
            Err(AudioDecodeError::Container(e)) => root is None && e == root_error(
                AUDIO_DATABASE_IDENTIFIER@,
                bytes,
            ),
            Err(AudioDecodeError::WrongShape) => root is Some && forall|music: Seq<u8>|
                root != Some(#[trigger] audio_record(music)),
        }
    }

    /// Reads the music back from an audio database file.
    pub fn decode(bytes: &[u8]) -> (r: Result<AudioDatabaseResource, AudioDecodeError>)
        ensures
            Self::is_reading_of(bytes@, r),
    {
        let record = match decode_root(&AUDIO_DATABASE_IDENTIFIER, bytes) {
            Ok(record) => record,
            Err(e) => {
                return Err(AudioDecodeError::Container(e));
            },
        };
        proof {
            lemma_fields_model(record.fields@, record.fields@.len());
        }
        if record.fields.len() != 1 {
            return Err(AudioDecodeError::WrongShape);
        }
        match &record.fields[0] {
            Field::VectorOfValues { stride, bytes: music } => {
                if *stride != 1 {
                    assert forall|other: Seq<u8>| record@ != #[trigger] audio_record(other) by {
                        if record@ == audio_record(other) {
                            assert(record@.fields[0] == audio_record(other).fields[0]);
                        }
                    }
                    return Err(AudioDecodeError::WrongShape);
                }
                let mut background_music: Vec<u8> = Vec::new();
                push_bytes(&mut background_music, music.as_slice());
                assert(background_music@ =~= music@);
                assert(record@.fields =~= audio_record(background_music@).fields);
                Ok(AudioDatabaseResource { background_music })
            },
            _ => {
                assert forall|other: Seq<u8>| record@ != #[trigger] audio_record(other) by {
                    if record@ == audio_record(other) {
                        assert(record@.fields[0] == audio_record(other).fields[0]);
                    }
                }
                Err(AudioDecodeError::WrongShape)
            },
        }
    }
}

/// Round trip: music that fits a file is read back from the file that it was
/// written to.
pub proof fn lemma_music_round_trip(
    music: Seq<u8>,
    read: Result<AudioDatabaseResource, AudioDecodeError>,
)
    requires
        is_encodable(audio_record(music)),
        AudioDatabaseResource::is_reading_of(
            encoded_root(AUDIO_DATABASE_IDENTIFIER@, audio_record(music)),
            read,
        ),
    ensures
        read matches Ok(audio) && audio.background_music@ == music,
{
    lemma_round_trip(AUDIO_DATABASE_IDENTIFIER@, audio_record(music));
    match read {
        Ok(audio) => {
            assert(audio_record(audio.background_music@).fields[0] == audio_record(music).fields[0]);
        },
        Err(_) => {},
    }
}

impl Resource for AudioDatabaseResource {
    type ReturnValue = Result<Vec<u8>, EncodeError>;

    open spec fn is_ready(&self) -> bool {
        true
    }

    /// The value is the artifact file of the music; there is none exactly
    /// when the music is too long for 32-bit offsets.
    open spec fn yields(&self, value: &Result<Vec<u8>, EncodeError>) -> bool {
        match value {
            Ok(bytes) => is_encodable(audio_record(self.background_music@)) && bytes@
                == encoded_root(AUDIO_DATABASE_IDENTIFIER@, audio_record(self.background_music@)),
            Err(e) => e == EncodeError::TooLarge && !is_encodable(
                audio_record(self.background_music@),
            ),
        }
    }

    fn compile(&self, compiler: Arc<AsyncCompiler>) -> (value: Result<Vec<u8>, EncodeError>) {
        let mut music: Vec<u8> = Vec::new();
        push_bytes(&mut music, self.background_music.as_slice());
        assert(music@ =~= self.background_music@);
        let mut fields: Vec<Field> = Vec::new();
        fields.push(Field::VectorOfValues { stride: 1, bytes: music });
        let record = Record { fields };
        proof {
            lemma_fields_model(record.fields@, 1);
            assert(record@.fields =~= audio_record(self.background_music@).fields);
        }
        encode_root(&AUDIO_DATABASE_IDENTIFIER, &record)
    }
}

} // verus!
