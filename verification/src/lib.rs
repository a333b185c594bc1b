//! Verified core of a lightweight desktop office suite: the document
//! surgery that removes note separator rules from a `.docx` package, the
//! recent-files list, the asset protocol's request routing and the small
//! decisions around opening, saving and converting documents.

pub mod assets;
pub mod bridge;
pub mod bytes;
pub mod clipboard;
pub mod converter;
pub mod encoding;
pub mod formats;
pub mod notes;
pub mod package;
pub mod platform;
pub mod recent;
pub mod session;
pub mod text;
