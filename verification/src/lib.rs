//! Parson: inspection of JSON documents by path queries.
//!
//! A document is read from its text into a [`JsonValue`], a query is resolved
//! against it, and the value found is written out again. Reading and writing
//! are the work of `serde_json`; everything between them is proved.
//!
//! ```
//! use parson::{parse_json, query_json, resolve, QueryError, QuerySyntax};
//!
//! let document = parse_json(r#"{"items": [10, 20, 30]}"#).unwrap();
//! let second = resolve(&document, "items.1", QuerySyntax::Dotted).unwrap();
//! assert_eq!(second, parse_json("20").unwrap());
//! assert_eq!(
//!     resolve(&document, "/items/5", QuerySyntax::Pointer),
//!     Err(QueryError::IndexOutOfBounds(5, 3)),
//! );
//! assert_eq!(query_json(r#"{"a": {"b": 5}}"#, "/a/b").unwrap(), "5");
//! ```

pub mod choices;
pub mod codec;
pub mod config;
pub mod decimal;
pub mod error;
pub mod formatter;
pub mod json;
pub mod menu;
pub mod parser;
pub mod query;
pub mod text;

pub use config::{Config, Folders};
pub use error::ParsonError;
pub use formatter::{format_value, reformat_json, EncodeError, OutputFormat};
pub use json::{JsonKind, JsonValue};
pub use parser::{parse_json, ParseError};
pub use query::{
    query_json, query_json_as, resolve, resolve_key, resolve_segments, QueryError, QuerySyntax,
};
