//! Region-file (Anvil `.mca`) codec and the pure parts of the `sekai`
//! snapshot tool.

pub mod endian;
pub mod error;
pub mod region;
pub mod reader;
pub mod writer;
pub mod laws;
pub mod codec;
pub mod hash;
pub mod text;
pub mod style;
pub mod report;
pub mod restore;
pub mod ops;
pub mod balance;
pub mod flags;
pub mod pair;
pub mod timing;
pub mod area;
pub mod history;
pub mod summary;
pub mod diffview;
pub mod tags;
pub mod rollback;
pub mod ingest;
