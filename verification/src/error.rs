//! What can go wrong while talking to a recorder.
use vstd::prelude::*;
use vstd::string::*;

use crate::text::{decimal, push_decimal, text_of};

verus! {

/// The errors of this library. `Io` and `Ble` carry the text of an error of the file system or of
/// the Bluetooth stack.
#[derive(Debug, Clone)]
pub enum RecorderError {
    NoAdapter,
    DeviceNotFound,
    ConnectionFailed(String),
    CharacteristicNotFound(String),
    HandshakeFailed(String),
    InvalidResponse(String),
    FileTransferError(String),
    CryptoError(String),
    FileNotExists(u32),
    Timeout,
    Disconnected,
    Io(String),
    Ble(String),
}

/// The error under the name of the device family.
pub type SoundcoreError = RecorderError;

impl RecorderError {
    /// The message of an error.
    pub open spec fn message(&self) -> Seq<char> {
        match self {
            RecorderError::NoAdapter => "BLE adapter not found"@,
            RecorderError::DeviceNotFound => "device not found during scan"@,
            RecorderError::ConnectionFailed(detail) => "BLE connection failed: "@ + detail@,
            RecorderError::CharacteristicNotFound(detail) => "GATT characteristic not found: "@
                + detail@,
            RecorderError::HandshakeFailed(detail) => "handshake failed: "@ + detail@,
            RecorderError::InvalidResponse(detail) => "invalid response: "@ + detail@,
            RecorderError::FileTransferError(detail) => "file transfer error: "@ + detail@,
            RecorderError::CryptoError(detail) => "crypto error: "@ + detail@,
            RecorderError::FileNotExists(file_id) => "file not found on device (id="@ + decimal(
                *file_id as nat,
            ) + ")"@,
            RecorderError::Timeout => "timeout waiting for response"@,
            RecorderError::Disconnected => "device disconnected"@,
            RecorderError::Io(detail) => "IO error: "@ + detail@,
            RecorderError::Ble(detail) => "BLE error: "@ + detail@,
        }
    }

    /// The message of the error, for people.
    pub fn to_string(&self) -> (r: String)
        ensures
            r@ == self.message(),
    {
        match self {
            RecorderError::NoAdapter => text_of("BLE adapter not found"),
            RecorderError::DeviceNotFound => text_of("device not found during scan"),
            RecorderError::ConnectionFailed(detail) => labelled("BLE connection failed: ", detail),
            RecorderError::CharacteristicNotFound(detail) => labelled(
                "GATT characteristic not found: ",
                detail,
            ),
            RecorderError::HandshakeFailed(detail) => labelled("handshake failed: ", detail),
            RecorderError::InvalidResponse(detail) => labelled("invalid response: ", detail),
            RecorderError::FileTransferError(detail) => labelled("file transfer error: ", detail),
            RecorderError::CryptoError(detail) => labelled("crypto error: ", detail),
            RecorderError::FileNotExists(file_id) => {
                let mut out: String = text_of("file not found on device (id=");
                push_decimal(&mut out, *file_id as u64);
                out.append(")");
                out
            },
            RecorderError::Timeout => text_of("timeout waiting for response"),
            RecorderError::Disconnected => text_of("device disconnected"),
            RecorderError::Io(detail) => labelled("IO error: ", detail),
            RecorderError::Ble(detail) => labelled("BLE error: ", detail),
        }
    }
}

/// A label with the detail behind it.
fn labelled(label: &str, detail: &String) -> (r: String)
    ensures
        r@ == label@ + detail@,
{
    let mut out: String = text_of(label);
    out.append(detail.as_str());
    out
}

/// The messages: each begins with what went wrong, and the detail, where there is one, follows
/// unchanged.
pub proof fn law_messages(detail: String, file_id: u32)
    ensures
        RecorderError::NoAdapter.message() == "BLE adapter not found"@,
        RecorderError::DeviceNotFound.message() == "device not found during scan"@,
        RecorderError::ConnectionFailed(detail).message() == "BLE connection failed: "@ + detail@,
        RecorderError::CharacteristicNotFound(detail).message()
            == "GATT characteristic not found: "@ + detail@,
        RecorderError::HandshakeFailed(detail).message() == "handshake failed: "@ + detail@,
        RecorderError::InvalidResponse(detail).message() == "invalid response: "@ + detail@,
        RecorderError::FileTransferError(detail).message() == "file transfer error: "@ + detail@,
        RecorderError::CryptoError(detail).message() == "crypto error: "@ + detail@,
        RecorderError::FileNotExists(file_id).message() == "file not found on device (id="@
            + decimal(file_id as nat) + ")"@,
        RecorderError::Timeout.message() == "timeout waiting for response"@,
        RecorderError::Disconnected.message() == "device disconnected"@,
        RecorderError::Io(detail).message() == "IO error: "@ + detail@,
        RecorderError::Ble(detail).message() == "BLE error: "@ + detail@,
{
}

} // verus!
