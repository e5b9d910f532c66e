//! What an export is configured with.

use vstd::prelude::*;
use vstd::string::*;
use parquet::basic::Compression;
use parquet::file::properties::WriterProperties;
use crate::store::Attribute;

verus! {

/// `parquet::file::properties::WriterProperties`: how a file is written. It
/// is carried from the configuration to the writer; nothing is read off it.
#[verifier::external_type_specification]
#[verifier::external_body]
pub struct ExWriterProperties(WriterProperties);

/// `WriterProperties::clone`: a copy of the properties. Nothing is stated
/// of it.
pub assume_specification[ <WriterProperties as Clone>::clone ](p: &WriterProperties) -> (r:
    WriterProperties)
;

/// The configuration of an export.
#[derive(Clone)]
pub struct ParquetConfig {
    /// The path that every file's name starts with.
    pub output_path: String,
    /// The name of the files, where it is not derived from the attributes.
    pub file_name: Option<String>,
    /// The clusters to export, where they are not detected.
    pub component_clusters: Option<Vec<Vec<Attribute>>>,
    /// How the files are written.
    pub writer_properties: WriterProperties,
}

/// `WriterProperties::builder`, `set_compression` with Snappy and `build`:
/// the properties of a writer that compresses with Snappy and is otherwise
/// as the `parquet` crate sets it up.
#[verifier::external_body]
fn compressed_writer_properties() -> (r: WriterProperties) {
    WriterProperties::builder().set_compression(Compression::SNAPPY).build()
}

impl Default for ParquetConfig {
    /// Files go to the current directory under derived names, the clusters
    /// are detected, and the writer compresses.
    fn default() -> (r: ParquetConfig)
        ensures
            r.output_path@ == "./"@,
            r.file_name is None,
            r.component_clusters is None,
    {
        ParquetConfig {
            output_path: String::from_str("./"),
            file_name: None,
            component_clusters: None,
            writer_properties: compressed_writer_properties(),
        }
    }
}

} // verus!
