//! Core primitives of a block game engine: variable-length integer codecs,
//! palettes, component maps, tracked entity data and friends, with their
//! behaviour stated as contracts and proved.

pub mod advancement;
pub mod block_entity;
pub mod block_pos;
pub mod component;
pub mod container;
pub mod context;
pub mod entity;
pub mod entity_data;
pub mod index_map;
pub mod item;
pub mod local_cx;
pub mod option;
pub mod packet;
pub mod palette;
pub mod varint;
