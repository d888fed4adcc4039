//! The geometry database: the vertices, meshlets and materials of all meshes
//! of a level in one artifact, with a table that maps a mesh index to its
//! primitives.
//!
//! All offsets and counts in the tables are numbers of elements, never of
//! bytes: a vertex offset counts vertices, a triangle offset counts entries of
//! the buffer of cluster-local indices, a meshlet offset counts meshlets and a
//! primitive offset counts primitives.

use std::cmp::Ordering;
use vstd::prelude::*;
use crate::container::{
    decoded_root, encoded_root, is_encodable, Field, FieldModel, Record, RecordModel,
};
use crate::container_decode::{decode_root, root_error, DecodeError};
use crate::container_encode::{encode_root, lemma_fields_model, EncodeError};
use crate::container_laws::lemma_round_trip;
use crate::meshlet::Meshlet;
use crate::tables::{
    decode_table, encode_table, lemma_table_bytes_injective, table_bytes, PlainRecord,
};

verus! {

/// The extension of a geometry database file.
pub const GEOMETRY_DATABASE_EXTENSION: &'static str = "tgb";

/// The tag of a geometry database file: `TGDB`.
pub const GEOMETRY_DATABASE_IDENTIFIER: [u8; 4] = [0x54, 0x47, 0x44, 0x42];

/// The texture index of a material without that texture.
pub const NO_TEXTURE: u32 = 0xFFFF_FFFF;

impl PlainRecord for Meshlet {
    open spec fn word_count() -> nat {
        4
    }

    open spec fn words(&self) -> Seq<u32> {
        seq![self.vertex_offset, self.vertex_count, self.triangle_offset, self.triangle_count]
    }

    open spec fn from_words(words: Seq<u32>) -> Meshlet {
        Meshlet {
            vertex_offset: words[0],
            vertex_count: words[1],
            triangle_offset: words[2],
            triangle_count: words[3],
        }
    }

    proof fn lemma_words(&self) {
    }

    proof fn lemma_from_words(words: Seq<u32>) {
        assert(Self::from_words(words).words() =~= words);
    }

    fn width() -> (n: usize) {
        4
    }

    fn push_words(&self, out: &mut Vec<u32>) {
        out.push(self.vertex_offset);
        out.push(self.vertex_count);
        out.push(self.triangle_offset);
        out.push(self.triangle_count);
        assert(out@ =~= old(out)@ + self.words());
    }

    fn read(words: &Vec<u32>, at: usize) -> (r: Meshlet) {
        let limit: usize = words.len();
        Meshlet {
            vertex_offset: words[at],
            vertex_count: words[at + 1],
            triangle_offset: words[at + 2],
            triangle_count: words[at + 3],
        }
    }
}

/// One primitive of a mesh: a range of the meshlet table and a material.
#[derive(Clone, Copy, Debug, PartialEq, Eq, Structural)]
pub struct PrimitiveMeshData {
    pub meshlets_offset: u32,
    pub meshlets_count: u32,
    pub material_index: u32,
}

impl PrimitiveMeshData {
    pub fn new(meshlets_offset: u32, meshlets_count: u32, material_index: u32) -> (r: PrimitiveMeshData)
        ensures
            r == (PrimitiveMeshData { meshlets_offset, meshlets_count, material_index }),
    {
        PrimitiveMeshData { meshlets_offset, meshlets_count, material_index }
    }

    pub fn meshlets_offset(&self) -> (r: u32)
        ensures
            r == self.meshlets_offset,
    {
        self.meshlets_offset
    }

    pub fn meshlets_count(&self) -> (r: u32)
        ensures
            r == self.meshlets_count,
    {
        self.meshlets_count
    }

    pub fn material_index(&self) -> (r: u32)
        ensures
            r == self.material_index,
    {
        self.material_index
    }
}

impl PlainRecord for PrimitiveMeshData {
    open spec fn word_count() -> nat {
        3
    }

    open spec fn words(&self) -> Seq<u32> {
        seq![self.meshlets_offset, self.meshlets_count, self.material_index]
    }

    open spec fn from_words(words: Seq<u32>) -> PrimitiveMeshData {
        PrimitiveMeshData {
            meshlets_offset: words[0],
            meshlets_count: words[1],
            material_index: words[2],
        }
    }

    proof fn lemma_words(&self) {
    }

    proof fn lemma_from_words(words: Seq<u32>) {
        assert(Self::from_words(words).words() =~= words);
    }

    fn width() -> (n: usize) {
        3
    }

    fn push_words(&self, out: &mut Vec<u32>) {
        out.push(self.meshlets_offset);
        out.push(self.meshlets_count);
        out.push(self.material_index);
        assert(out@ =~= old(out)@ + self.words());
    }

    fn read(words: &Vec<u32>, at: usize) -> (r: PrimitiveMeshData) {
        let limit: usize = words.len();
        PrimitiveMeshData {
            meshlets_offset: words[at],
            meshlets_count: words[at + 1],
            material_index: words[at + 2],
        }
    }
}

/// The primitives of one mesh: a range of the primitive table.
#[derive(Clone, Copy, Debug, PartialEq, Eq, Structural)]
pub struct MeshData {
    pub primitive_mesh_offset: u32,
    pub primitive_mesh_count: u32,
}

impl MeshData {
    pub fn new(primitive_mesh_offset: u32, primitive_mesh_count: u32) -> (r: MeshData)
        ensures
            r == (MeshData { primitive_mesh_offset, primitive_mesh_count }),
    {
        MeshData { primitive_mesh_offset, primitive_mesh_count }
    }

    pub fn primitive_mesh_offset(&self) -> (r: u32)
        ensures
            r == self.primitive_mesh_offset,
    {
        self.primitive_mesh_offset
    }

    pub fn primitive_mesh_count(&self) -> (r: u32)
        ensures
            r == self.primitive_mesh_count,
    {
        self.primitive_mesh_count
    }
}

/// One entry of the mapping table: the index of a scene mesh, which is the
/// key, and the primitives of that mesh.
#[derive(Clone, Copy, Debug, PartialEq, Eq, Structural)]
pub struct MeshMapping {
    pub index: u32,
    pub mesh_data: MeshData,
}

impl MeshMapping {
    pub fn new(index: u32, mesh_data: &MeshData) -> (r: MeshMapping)
        ensures
            r == (MeshMapping { index, mesh_data: *mesh_data }),
    {
        MeshMapping { index, mesh_data: *mesh_data }
    }

    pub fn index(&self) -> (r: u32)
        ensures
            r == self.index,
    {
        self.index
    }

    pub fn key_compare_less_than(&self, o: &MeshMapping) -> (r: bool)
        ensures
            r == (self.index < o.index),
    {
        self.index < o.index
    }

    /// How the key of the entry stands to a key that is looked for.
    pub fn key_compare_with_value(&self, val: u32) -> (r: Ordering)
        ensures
            match r {
                Ordering::Less => self.index < val,
                Ordering::Equal => self.index == val,
                Ordering::Greater => self.index > val,
            },
    {
        if self.index < val {
            Ordering::Less
        } else if self.index == val {
            Ordering::Equal
        } else {
            Ordering::Greater
        }
    }

    pub fn mesh_data(&self) -> (r: &MeshData)
        ensures
            *r == self.mesh_data,
    {
        &self.mesh_data
    }
}

impl PlainRecord for MeshMapping {
    open spec fn word_count() -> nat {
        3
    }

    open spec fn words(&self) -> Seq<u32> {
        seq![
            self.index,
            self.mesh_data.primitive_mesh_offset,
            self.mesh_data.primitive_mesh_count,
        ]
    }

    open spec fn from_words(words: Seq<u32>) -> MeshMapping {
        MeshMapping {
            index: words[0],
            mesh_data: MeshData { primitive_mesh_offset: words[1], primitive_mesh_count: words[2] },
        }
    }

    proof fn lemma_words(&self) {
    }

    proof fn lemma_from_words(words: Seq<u32>) {
        assert(Self::from_words(words).words() =~= words);
    }

    fn width() -> (n: usize) {
        3
    }

    fn push_words(&self, out: &mut Vec<u32>) {
        out.push(self.index);
        out.push(self.mesh_data.primitive_mesh_offset);
        out.push(self.mesh_data.primitive_mesh_count);
        assert(out@ =~= old(out)@ + self.words());
    }

    fn read(words: &Vec<u32>, at: usize) -> (r: MeshMapping) {
        let limit: usize = words.len();
        MeshMapping {
            index: words[at],
            mesh_data: MeshData {
                primitive_mesh_offset: words[at + 1],
                primitive_mesh_count: words[at + 2],
            },
        }
    }
}

/// A material: colour and surface factors as bit patterns of single-precision
/// numbers, and the indices of its textures, `NO_TEXTURE` where it has none.
#[derive(Clone, Copy, Debug, PartialEq, Eq, Structural)]
pub struct Material {
    pub albedo_red: u32,
    pub albedo_green: u32,
    pub albedo_blue: u32,
    pub albedo_alpha: u32,
    pub metallic_factor: u32,
    pub roughness_factor: u32,
    pub albedo_color_texture_index: u32,
    pub metallic_roughness_texture_index: u32,
}

impl Material {
    pub fn new(
        albedo_color_factor: &[u32; 4],
        metallic_factor: u32,
        roughness_factor: u32,
        albedo_color_texture_index: u32,
        metallic_roughness_texture_index: u32,
    ) -> (r: Material)
        ensures
            r == (Material {
                albedo_red: albedo_color_factor[0],
                albedo_green: albedo_color_factor[1],
                albedo_blue: albedo_color_factor[2],
                albedo_alpha: albedo_color_factor[3],
                metallic_factor,
                roughness_factor,
                albedo_color_texture_index,
                metallic_roughness_texture_index,
            }),
    {
        Material {
            albedo_red: albedo_color_factor[0],
            albedo_green: albedo_color_factor[1],
            albedo_blue: albedo_color_factor[2],
            albedo_alpha: albedo_color_factor[3],
            metallic_factor,
            roughness_factor,
            albedo_color_texture_index,
            metallic_roughness_texture_index,
        }
    }

    pub fn albedo_color_factor(&self) -> (r: [u32; 4])
        ensures
            r@ == seq![self.albedo_red, self.albedo_green, self.albedo_blue, self.albedo_alpha],
    {
        let r = [self.albedo_red, self.albedo_green, self.albedo_blue, self.albedo_alpha];
        assert(r@ =~= seq![self.albedo_red, self.albedo_green, self.albedo_blue, self.albedo_alpha]);
        r
    }

    pub fn metallic_factor(&self) -> (r: u32)
        ensures
            r == self.metallic_factor,
    {
        self.metallic_factor
    }

    pub fn roughness_factor(&self) -> (r: u32)
        ensures
            r == self.roughness_factor,
    {
        self.roughness_factor
    }

    pub fn albedo_color_texture_index(&self) -> (r: u32)
        ensures
            r == self.albedo_color_texture_index,
    {
        self.albedo_color_texture_index
    }

    pub fn metallic_roughness_texture_index(&self) -> (r: u32)
        ensures
            r == self.metallic_roughness_texture_index,
    {
        self.metallic_roughness_texture_index
    }
}

impl PlainRecord for Material {
    open spec fn word_count() -> nat {
        8
    }

    open spec fn words(&self) -> Seq<u32> {
        seq![
            self.albedo_red,
            self.albedo_green,
            self.albedo_blue,
            self.albedo_alpha,
            self.metallic_factor,
            self.roughness_factor,
            self.albedo_color_texture_index,
            self.metallic_roughness_texture_index,
        ]
    }

    open spec fn from_words(words: Seq<u32>) -> Material {
        Material {
            albedo_red: words[0],
            albedo_green: words[1],
            albedo_blue: words[2],
            albedo_alpha: words[3],
            metallic_factor: words[4],
            roughness_factor: words[5],
            albedo_color_texture_index: words[6],
            metallic_roughness_texture_index: words[7],
        }
    }

    proof fn lemma_words(&self) {
    }

    proof fn lemma_from_words(words: Seq<u32>) {
        assert(Self::from_words(words).words() =~= words);
    }

    fn width() -> (n: usize) {
        8
    }

    fn push_words(&self, out: &mut Vec<u32>) {
        out.push(self.albedo_red);
        out.push(self.albedo_green);
        out.push(self.albedo_blue);
        out.push(self.albedo_alpha);
        out.push(self.metallic_factor);
        out.push(self.roughness_factor);
        out.push(self.albedo_color_texture_index);
        out.push(self.metallic_roughness_texture_index);
        assert(out@ =~= old(out)@ + self.words());
    }

    fn read(words: &Vec<u32>, at: usize) -> (r: Material) {
        let limit: usize = words.len();
        Material {
            albedo_red: words[at],
            albedo_green: words[at + 1],
            albedo_blue: words[at + 2],
            albedo_alpha: words[at + 3],
            metallic_factor: words[at + 4],
            roughness_factor: words[at + 5],
            albedo_color_texture_index: words[at + 6],
            metallic_roughness_texture_index: words[at + 7],
        }
    }
}

/// The keys of the mapping table rise strictly from entry to entry.
pub open spec fn mappings_sorted(mappings: Seq<MeshMapping>) -> bool {
    forall|i: int, j: int| 0 <= i < j < mappings.len() ==> mappings[i].index < mappings[j].index
}

pub fn check_mappings_sorted(mappings: &Vec<MeshMapping>) -> (b: bool)
    ensures
        b == mappings_sorted(mappings@),
{
    let mut i: usize = 1;
    while i < mappings.len()
        invariant
            1 <= i,
            forall|a: int, b: int|
                0 <= a < b < i && b < mappings@.len() ==> mappings@[a].index < mappings@[b].index,
        decreases mappings@.len() - i,
    {
        if !mappings[i - 1].key_compare_less_than(&mappings[i]) {
            return false;
        }
        assert forall|a: int, b: int| 0 <= a < b < i + 1 && b < mappings@.len() implies mappings@[a].index
            < mappings@[b].index by {
            if b == i && a < i - 1 {
                assert(mappings@[a].index < mappings@[i - 1].index);
            }
        }
        i = i + 1;
    }
    true
}

/// The geometry of a level.
pub struct GeometryDatabase {
    /// The vertices of all primitives, 32 bytes each.
    pub vertex_buffer: Vec<u8>,
    /// The cluster-local triangle corners of all meshlets.
    pub meshlet_indices_buffer: Vec<u8>,
    /// The meshlets, with offsets into the two buffers above.
    pub meshlet_buffer: Vec<Meshlet>,
    /// The primitives, with offsets into the meshlet table.
    pub primitive_meshes: Vec<PrimitiveMeshData>,
    pub materials: Vec<Material>,
    /// The primitives of each mesh, sorted by mesh index.
    pub mappings: Vec<MeshMapping>,
}

/// Why a geometry database could not be read.
#[derive(Clone, Copy, Debug, PartialEq, Eq, Structural)]
pub enum GeometryDecodeError {
    /// The file is no container with the tag of a geometry database.
    Container(DecodeError),
    /// The root record does not hold the six tables of a geometry database.
    WrongShape,
    /// The mapping table is not strictly ascending by mesh index.
    NotSorted,
}

impl GeometryDatabase {
    /// The root record of the database: six vectors of plain values.
    pub open spec fn record_model(&self) -> RecordModel {
        RecordModel {
            fields: seq![
                FieldModel::Values { stride: 1, bytes: self.vertex_buffer@ },
                FieldModel::Values { stride: 1, bytes: self.meshlet_indices_buffer@ },
                FieldModel::Values { stride: 16, bytes: table_bytes(self.meshlet_buffer@) },
                FieldModel::Values { stride: 12, bytes: table_bytes(self.primitive_meshes@) },
                FieldModel::Values { stride: 32, bytes: table_bytes(self.materials@) },
                FieldModel::Values { stride: 12, bytes: table_bytes(self.mappings@) },
            ],
        }
    }

    /// The invariant that readers rely on: the mapping table can be searched
    /// by key.
    pub open spec fn wf(&self) -> bool {
        mappings_sorted(self.mappings@)
    }

    pub fn vertex_buffer(&self) -> (r: Option<&[u8]>)
        ensures
            r matches Some(bytes) && bytes@ == self.vertex_buffer@,
    {
        Some(self.vertex_buffer.as_slice())
    }

    pub fn meshlet_indices_buffer(&self) -> (r: Option<&[u8]>)
        ensures
            r matches Some(bytes) && bytes@ == self.meshlet_indices_buffer@,
    {
        Some(self.meshlet_indices_buffer.as_slice())
    }

    pub fn meshlet_buffer(&self) -> (r: Option<&[Meshlet]>)
        ensures
            r matches Some(table) && table@ == self.meshlet_buffer@,
    {
        Some(self.meshlet_buffer.as_slice())
    }

    pub fn primitive_meshes(&self) -> (r: Option<&[PrimitiveMeshData]>)
        ensures
            r matches Some(table) && table@ == self.primitive_meshes@,
    {
        Some(self.primitive_meshes.as_slice())
    }

    pub fn materials(&self) -> (r: Option<&[Material]>)
        ensures
            r matches Some(table) && table@ == self.materials@,
    {
        Some(self.materials.as_slice())
    }

    pub fn mappings(&self) -> (r: Option<&[MeshMapping]>)
        ensures
            r matches Some(table) && table@ == self.mappings@,
    {
        Some(self.mappings.as_slice())
    }

    /// The primitives of the scene mesh `mesh_index`, found by binary search
    /// in the mapping table. There are none exactly when no entry of the
    /// table has that key.
    pub fn lookup_by_key(&self, mesh_index: u32) -> (r: Option<MeshData>)
        requires
            self.wf(),
        ensures
            match r {
                Some(data) => exists|i: int|
                    0 <= i < self.mappings@.len() && (#[trigger] self.mappings@[i]).index
                        == mesh_index && self.mappings@[i].mesh_data == data,
                None => forall|i: int|
                    0 <= i < self.mappings@.len() ==> (#[trigger] self.mappings@[i]).index
                        != mesh_index,
            },
    {
        let mut lo: usize = 0;
        let mut hi: usize = self.mappings.len();
        while lo < hi
            invariant
                lo <= hi <= self.mappings@.len(),
                self.wf(),
                forall|i: int| 0 <= i < lo ==> (#[trigger] self.mappings@[i]).index < mesh_index,
                forall|i: int|
                    hi <= i < self.mappings@.len() ==> (#[trigger] self.mappings@[i]).index
                        > mesh_index,
            decreases hi - lo,
        {
            let mid: usize = lo + (hi - lo) / 2;
            let key = self.mappings[mid].index();
            if key < mesh_index {
                assert forall|i: int| 0 <= i < mid + 1 implies (#[trigger] self.mappings@[i]).index
                    < mesh_index by {
                    if i < mid {
                        assert(self.mappings@[i].index < self.mappings@[mid as int].index);
                    }
                }
                lo = mid + 1;
            } else if key > mesh_index {
                assert forall|i: int| mid <= i < self.mappings@.len() implies (
                #[trigger] self.mappings@[i]).index > mesh_index by {
                    if mid < i {
                        assert(self.mappings@[mid as int].index < self.mappings@[i].index);
                    }
                }
                hi = mid;
            } else {
                return Some(*self.mappings[mid].mesh_data());
            }
        }
        None
    }

    fn copy_bytes(bytes: &Vec<u8>) -> (r: Vec<u8>)
        ensures
            r@ == bytes@,
    {
        let mut r: Vec<u8> = Vec::new();
        crate::wire::push_bytes(&mut r, bytes.as_slice());
        assert(r@ =~= bytes@);
        r
    }

    /// The root record of the database.
    pub fn to_record(&self) -> (record: Record)
        ensures
            record@ == self.record_model(),
    {
        let mut fields: Vec<Field> = Vec::new();
        fields.push(Field::VectorOfValues { stride: 1, bytes: Self::copy_bytes(&self.vertex_buffer) });
        fields.push(
            Field::VectorOfValues {
                stride: 1,
                bytes: Self::copy_bytes(&self.meshlet_indices_buffer),
            },
        );
        fields.push(Field::VectorOfValues { stride: 16, bytes: encode_table(&self.meshlet_buffer) });
        fields.push(
            Field::VectorOfValues { stride: 12, bytes: encode_table(&self.primitive_meshes) },
        );
        fields.push(Field::VectorOfValues { stride: 32, bytes: encode_table(&self.materials) });
        fields.push(Field::VectorOfValues { stride: 12, bytes: encode_table(&self.mappings) });
        let record = Record { fields };
        proof {
            lemma_fields_model(record.fields@, 6);
            assert(record@.fields =~= self.record_model().fields);
        }
        record
    }

    /// Writes the database as an artifact file. Fails exactly when the file
    /// would not fit 32-bit offsets.
    pub fn encode(&self) -> (r: Result<Vec<u8>, EncodeError>)
        ensures
            match r {
                Ok(bytes) => is_encodable(self.record_model()) && bytes@ == encoded_root(
                    GEOMETRY_DATABASE_IDENTIFIER@,
                    self.record_model(),
                ),
                Err(e) => e == EncodeError::TooLarge && !is_encodable(self.record_model()),
            },
    {
        let record = self.to_record();
        encode_root(&GEOMETRY_DATABASE_IDENTIFIER, &record)
    }

    fn values_of(field: &Field, stride: u32) -> (r: Option<&Vec<u8>>)
        ensures
            match r {
                Some(bytes) => field@ == (FieldModel::Values { stride, bytes: bytes@ }),
                None => !(field@ matches FieldModel::Values { stride: s, bytes: _ } && s == stride),
            },
    {
        match field {
            Field::VectorOfValues { stride: s, bytes } => if *s == stride {
                Some(bytes)
            } else {
                None
            },
            _ => None,
        }
    }

    /// The database holds the same tables as `other`.
    pub open spec fn same_as(&self, other: &GeometryDatabase) -> bool {
        &&& self.vertex_buffer@ == other.vertex_buffer@
        &&& self.meshlet_indices_buffer@ == other.meshlet_indices_buffer@
        &&& self.meshlet_buffer@ == other.meshlet_buffer@
        &&& self.primitive_meshes@ == other.primitive_meshes@
        &&& self.materials@ == other.materials@
        &&& self.mappings@ == other.mappings@
    }

    /// What reading the file `bytes` gives.
    ///
    /// It is a database when the file is a container with the tag of a
    /// geometry database whose root record is that of a database with a
    /// sorted mapping table: then it is a database with that record. It is
    /// `Container`, with the reason, when the file is no such container;
    /// `WrongShape` when the root record is not six tables of the right
    /// strides and of whole records; `NotSorted` when it is but the mapping
    /// table is not strictly ascending.
    pub open spec fn is_reading_of(
        bytes: Seq<u8>,
        r: Result<GeometryDatabase, GeometryDecodeError>,
    ) -> bool {
        let root = decoded_root(GEOMETRY_DATABASE_IDENTIFIER@, bytes);
        match r {
            Ok(database) => root == Some(database.record_model()) && database.wf(),
            Err(GeometryDecodeError::Container(e)) => root is None && e == root_error(
                GEOMETRY_DATABASE_IDENTIFIER@,
                bytes,
            ),
            Err(GeometryDecodeError::WrongShape) => root is Some && forall|database: GeometryDatabase|
                root != Some(#[trigger] database.record_model()),
            Err(GeometryDecodeError::NotSorted) => exists|database: GeometryDatabase|
                root == Some(#[trigger] database.record_model()) && !database.wf(),
        }
    }

    /// Reads a database from an artifact file. A database that is read has a
    /// mapping table that is strictly ascending by key.
    pub fn decode(bytes: &[u8]) -> (r: Result<GeometryDatabase, GeometryDecodeError>)
        ensures
            Self::is_reading_of(bytes@, r),
            r matches Ok(database) ==> database.wf(),
    {
        let record = match decode_root(&GEOMETRY_DATABASE_IDENTIFIER, bytes) {
            Ok(record) => record,
            Err(e) => {
                return Err(GeometryDecodeError::Container(e));
            },
        };
        proof {
            lemma_fields_model(record.fields@, record.fields@.len());
        }
        if record.fields.len() != 6 {
            return Err(GeometryDecodeError::WrongShape);
        }
        let vertices = Self::values_of(&record.fields[0], 1);
        let corners = Self::values_of(&record.fields[1], 1);
        let meshlets = Self::values_of(&record.fields[2], 16);
        let primitives = Self::values_of(&record.fields[3], 12);
        let materials = Self::values_of(&record.fields[4], 32);
        let mappings = Self::values_of(&record.fields[5], 12);
        match (vertices, corners, meshlets, primitives, materials, mappings) {
            (Some(vertices), Some(corners), Some(meshlets), Some(primitives), Some(materials), Some(mappings)) => {
                let meshlet_buffer = decode_table::<Meshlet>(meshlets.as_slice());
                let primitive_meshes = decode_table::<PrimitiveMeshData>(primitives.as_slice());
                let materials = decode_table::<Material>(materials.as_slice());
                let mappings = decode_table::<MeshMapping>(mappings.as_slice());
                match (meshlet_buffer, primitive_meshes, materials, mappings) {
                    (Some(meshlet_buffer), Some(primitive_meshes), Some(materials), Some(mappings)) => {
                        let database = GeometryDatabase {
                            vertex_buffer: Self::copy_bytes(vertices),
                            meshlet_indices_buffer: Self::copy_bytes(corners),
                            meshlet_buffer,
                            primitive_meshes,
                            materials,
                            mappings,
                        };
                        assert(record@.fields =~= database.record_model().fields);
                        if !check_mappings_sorted(&database.mappings) {
                            return Err(GeometryDecodeError::NotSorted);
                        }
                        Ok(database)
                    },
                    _ => {
                        assert forall|database: GeometryDatabase|
                            record@ != #[trigger] database.record_model() by {
                            if record@ == database.record_model() {
                                assert(record@.fields[2] == database.record_model().fields[2]);
                                assert(record@.fields[3] == database.record_model().fields[3]);
                                assert(record@.fields[4] == database.record_model().fields[4]);
                                assert(record@.fields[5] == database.record_model().fields[5]);
                            }
                        }
                        Err(GeometryDecodeError::WrongShape)
                    },
                }
            },
            _ => {
                assert forall|database: GeometryDatabase|
                    record@ != #[trigger] database.record_model() by {
                    if record@ == database.record_model() {
                        assert(record@.fields[0] == database.record_model().fields[0]);
                        assert(record@.fields[1] == database.record_model().fields[1]);
                        assert(record@.fields[2] == database.record_model().fields[2]);
                        assert(record@.fields[3] == database.record_model().fields[3]);
                        assert(record@.fields[4] == database.record_model().fields[4]);
                        assert(record@.fields[5] == database.record_model().fields[5]);
                    }
                }
                Err(GeometryDecodeError::WrongShape)
            },
        }
    }
}

/// The file starts with the tag of a geometry database.
pub fn geometry_database_buffer_has_identifier(buf: &[u8]) -> (b: bool)
    ensures
        b == (buf@.len() >= 4 && buf@.subrange(0, 4) == GEOMETRY_DATABASE_IDENTIFIER@),
{
    if buf.len() < 4 {
        return false;
    }
    let b = buf[0] == GEOMETRY_DATABASE_IDENTIFIER[0] && buf[1] == GEOMETRY_DATABASE_IDENTIFIER[1]
        && buf[2] == GEOMETRY_DATABASE_IDENTIFIER[2] && buf[3] == GEOMETRY_DATABASE_IDENTIFIER[3];
    proof {
        let head = buf@.subrange(0, 4);
        assert(head[0] == buf@[0] && head[1] == buf@[1] && head[2] == buf@[2] && head[3] == buf@[3]);
        if b {
            assert(head =~= GEOMETRY_DATABASE_IDENTIFIER@);
        }
    }
    b
}

/// Reads the geometry database that a file holds.
pub fn get_root_as_geometry_database(buf: &[u8]) -> (r: Result<GeometryDatabase, GeometryDecodeError>)
    ensures
        GeometryDatabase::is_reading_of(buf@, r),
{
    GeometryDatabase::decode(buf)
}

/// A database is fixed by its root record: two databases with the same root
/// record hold the same tables.
pub proof fn lemma_record_fixes_database(a: &GeometryDatabase, b: &GeometryDatabase)
    requires
        a.record_model() == b.record_model(),
    ensures
        a.same_as(b),
{
    let fa = a.record_model().fields;
    let fb = b.record_model().fields;
    assert(fa[0] == fb[0]);
    assert(fa[1] == fb[1]);
    assert(fa[2] == fb[2]);
    assert(fa[3] == fb[3]);
    assert(fa[4] == fb[4]);
    assert(fa[5] == fb[5]);
    lemma_table_bytes_injective(a.meshlet_buffer@, b.meshlet_buffer@);
    lemma_table_bytes_injective(a.primitive_meshes@, b.primitive_meshes@);
    lemma_table_bytes_injective(a.materials@, b.materials@);
    lemma_table_bytes_injective(a.mappings@, b.mappings@);
}

/// Round trip: a database with a sorted mapping table that fits a file is
/// read back from the file that it was written to, table by table.
pub proof fn lemma_database_round_trip(
    database: &GeometryDatabase,
    read: Result<GeometryDatabase, GeometryDecodeError>,
)
    requires
        database.wf(),
        is_encodable(database.record_model()),
        GeometryDatabase::is_reading_of(
            encoded_root(GEOMETRY_DATABASE_IDENTIFIER@, database.record_model()),
            read,
        ),
    ensures
        read matches Ok(copy) && copy.same_as(database),
{
    lemma_round_trip(GEOMETRY_DATABASE_IDENTIFIER@, database.record_model());
    match read {
        Ok(copy) => {
            lemma_record_fixes_database(&copy, database);
        },
        Err(GeometryDecodeError::Container(_)) => {},
        Err(GeometryDecodeError::WrongShape) => {},
        Err(GeometryDecodeError::NotSorted) => {
            let bytes = encoded_root(GEOMETRY_DATABASE_IDENTIFIER@, database.record_model());
            let other = choose|other: GeometryDatabase|
                decoded_root(GEOMETRY_DATABASE_IDENTIFIER@, bytes) == Some(
                    #[trigger] other.record_model(),
                ) && !other.wf();
            lemma_record_fixes_database(&other, database);
        },
    }
}

} // verus!
