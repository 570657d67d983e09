//! Receiving side of a small file-synchronisation protocol: the file
//! metadata format, the wire protocol's command decoder and list framing,
//! and the rules that decide where received files are stored.

pub mod bytes;
pub mod file;
pub mod protocol;
pub mod text;
pub mod dir;
pub mod config;
pub mod receiver;
pub mod sender;
