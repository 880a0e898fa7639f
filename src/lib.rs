//! Splits a pool of files, flat or grouped into class directories, into
//! disjoint train, test and validation groups, and plans where each file goes.

pub mod cleanup;
pub mod entry;
pub mod enumerate;
pub mod layout;
pub mod naming;
pub mod registry;
pub mod run;
pub mod split;
