//! Verified core of the Firefly Zero app installer: parsing of the download
//! stream, of the server's response headers, of stored settings, and the
//! decisions of the Wi-Fi connection screens.

pub mod text;
pub mod hash;
pub mod headers;
pub mod installer;
pub mod stats;
pub mod finalize;
pub mod wifi;
pub mod state;
pub mod connection;
pub mod points;
pub mod password;
