//! The columnar store: schema, column files, tables, queries and indexes.

pub mod column;
pub mod compression;
pub mod descriptor;
pub mod encoding;
pub mod header;
pub mod index;
pub mod layout;
pub mod query;
pub mod schema;
pub mod storage;
pub mod table;

pub use column::{Column, ColumnBuilder, ColumnIterator};
pub use compression::{Compression, CompressionType, NoCompression};
pub use index::{Index, IndexType};
pub use query::{Operator, Predicate, Query, QueryBuilder};
pub use schema::{DataType, Field, Metadata, Schema};
pub use storage::{Storage, StorageOptions};
pub use table::{ColumnFile, Table, TableBuilder};
