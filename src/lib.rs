//! Reads and rewrites values in block-structured configuration documents
//! addressed by dotted paths, and decodes the packed "source" strings that
//! such documents carry.
pub mod codec;
pub mod document;
pub mod error;
pub mod navigate;
pub mod object;
pub mod query;
pub mod scan;
pub mod text;

pub use codec::{
    extract_param_from_source, extract_path_from_source, extract_url_from_source,
    update_param_in_source, update_path_in_source, update_url_in_source,
};
pub use error::TvError;
pub use scan::{matches_filter, matches_query, scan_files};
pub use navigate::{get_in_document, get_value, set_in_document, set_value};
pub use object::{extract_from_object_string, update_in_object_string};
pub use query::{
    parse_attribute_filter, parse_query, parse_scan_query, AttributeFilter, Query, ScanQuery,
};
