//! A small key-value cache: wire framing, storage backends with a
//! write-ahead log, and the request handling around them.

pub mod frame;
pub mod protocol;
pub mod byteseq;
pub mod lmdb_env;
pub mod kv;
pub mod storage;
pub mod items;
pub mod time;
pub mod uc;
pub mod wal;
