pub mod classify;
pub mod codec;
pub mod document;
pub mod sql;
pub mod text;
pub mod transform;

pub use classify::{classify_columns, find_identifier_column, ClassifierConfig, ColumnDescriptor};
pub use codec::reverse_complement;
pub use document::{detect_file_type, locate_header, process_document, FileType, ProcessError, ProcessedDocument};
pub use sql::{format_update, update_statements};
pub use transform::{transform_row, transform_value, CorrelationRecord};
