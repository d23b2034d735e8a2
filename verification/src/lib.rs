//! Data-driven island authoring engine.
//!
//! A sandboxed script declares an island: its rooms (axis-aligned 3D tile
//! volumes), entity spawn points, field schemas for tile and entity kinds,
//! and external asset references.  This crate holds the verified core of
//! that engine: the domain data model, the text codec for authored files,
//! the spatial adjacency test between rooms, the dense grid construction,
//! the field-schema registry, and the authoring state that the script host
//! binding mutates.  The embedding host wraps the authoring state in a
//! mutual-exclusion boundary and performs the file reads; every decision on
//! the data itself is made here, under contract.

pub mod fields;
pub mod grid;
pub mod mechanics;
pub mod numerals;
pub mod paths;
pub mod sandbox;
pub mod strutil;
pub mod text;
