//! Column-oriented localisation of tables: extract the distinct values of each
//! column into a manifest, then rebuild the table from a translated manifest.
pub mod column;
pub mod densify;
pub mod laws;
pub mod mapping;
pub mod output;
pub mod table;
pub mod text;
pub mod translate;
