//! The generators of the items that a self-referencing struct consists of.
//!
//! Each generated item is described by a function from the analysed
//! declaration to the tokens of the item, and made by a function that is
//! proved to give exactly these tokens. Where the documentation shows the
//! shape of an item, `#name` marks a place that is filled in.

pub mod common;
pub mod constructor;
pub mod derives;
pub mod drop;
pub mod into_heads;
pub mod struc;
pub mod summon_borrowchk;
pub mod summon_checker;
pub mod try_constructor;
pub mod type_asserts;
pub mod with;
pub mod with_all;
pub mod with_each;
pub mod with_mut;
