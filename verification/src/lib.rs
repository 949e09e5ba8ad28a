//! Browsing the direct dependencies of a Cargo project: the rules that turn a
//! resolved package graph into a sorted list of dependency records, the
//! selection cursor over that list, and the text a terminal front end paints.

pub mod app;
pub mod dependency;
pub mod features;
pub mod home;
pub mod metadata;
pub mod sorting;
pub mod styled;
pub mod text;
pub mod version;
