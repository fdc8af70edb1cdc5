//! Storage of model inference outputs: the registry of field names, the
//! typed fields and their binary codec, the record itself, the statements
//! and row handling of the store, and the selection of the best-scoring
//! tokens of a record.

pub mod codec;
pub mod db;
pub mod field;
pub mod field_name;
pub mod outputs;
pub mod score;
pub mod server;
pub mod sql;
pub mod top_k;
pub mod wire;
