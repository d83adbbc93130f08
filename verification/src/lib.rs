//! Downloading recordings from Bluetooth voice recorders.
//!
//! The library holds what the client of a recorder computes: the packets of the protocol, the key
//! exchange and decryption, the course of a download, and the Ogg file that comes out of it. It
//! does no input or output itself. Whoever drives it sends the packets that it builds and hands it
//! the packets that come in.
//!
//! The supported device is the Anker Soundcore Work D3200.

pub mod ble;
pub mod bytes;
pub mod cli;
pub mod crc;
pub mod crypto;
pub mod download;
pub mod download_laws;
pub mod error;
pub mod ogg;
pub mod ogg_reader;
pub mod protocol;
pub mod protocol_laws;
pub mod recorder;
pub mod text;

pub use ble::DeviceInfo;
pub use download::DownloadProgress;
pub use error::{RecorderError, SoundcoreError};
pub use protocol::FileInfo;
pub use recorder::{Device, DeviceKind, Recorder, SoundcoreRecorder};
