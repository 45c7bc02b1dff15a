pub mod copy;
pub mod error;
pub mod format;
pub mod grids;
pub mod hoppet;
pub mod merge;
pub mod plan;
pub mod reader;
pub mod roundtrip;
pub mod storage;
pub mod strip;
pub mod table;
pub mod text;
pub mod values;
pub mod writer;
