//! Thunder: an offline level compiler for a game engine.
//!
//! The crate turns an authoring-time scene into runtime-ready binary
//! databases. This library holds the rules of that compilation: the mesh
//! extraction stage, the builders of the geometry, texture, material, audio,
//! entity and physics artifacts, the binary container they are written in,
//! and the scheduling decisions of the build.

pub mod compiler;
pub mod definitions;
pub mod resources;
pub mod level;
pub mod wire;
pub mod tables;
pub mod meshlet;
pub mod mesh_optimizer;
pub mod mesh;
pub mod triangles;
pub mod mesh_resource;
pub mod scene;
pub mod container;
pub mod container_encode;
pub mod container_decode;
pub mod container_laws;
pub mod geometry_database;
pub mod geometry_builder;
pub mod audio_database;
pub mod texture;
pub mod material_database;
pub mod texture_database;
pub mod flecs;
pub mod entities_world;
pub mod physics_world;
pub mod orchestrator;
