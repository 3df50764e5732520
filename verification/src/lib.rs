//! The WCRY envelope: one encrypted file that any of several passwords opens.

pub mod bytes;
pub mod envelope;
pub mod error;
pub mod header;
pub mod keys;
pub mod laws;
pub mod layout;
pub mod metadata;
pub mod primitives;
pub mod wire;

pub use crate::envelope::decrypt_file;
pub use crate::envelope::encrypt_file;
pub use crate::envelope::reset_passwords;
pub use crate::envelope::Decrypted;
pub use crate::error::Error;
pub use crate::header::parse_header;
pub use crate::header::Entry;
pub use crate::header::FileHeader;
pub use crate::metadata::update_metadata;
