//! Concrete container adapters: implementations of the typeclass hierarchy
//! for a representative set of container types.
pub mod btree_map;
pub mod hash_map;
pub mod identity;
pub mod option;
pub mod result;
pub mod string;
pub mod tinyvec;
pub mod vec;
