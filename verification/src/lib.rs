//! A photo catalog's verified core.
pub mod catalog;
pub mod catalog_images;
pub mod catalog_metadata;
pub mod catalog_metadata_write;
pub mod catalog_migration;
pub mod copies;
pub mod error;
pub mod lookups;
pub mod ordering;
pub mod outside;
pub mod support;
pub mod tables;
