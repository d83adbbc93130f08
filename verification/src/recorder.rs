//! A session with a recorder: what is sent for each operation, and what is made of the reply.
use vstd::prelude::*;
use vstd::string::*;

use crate::ble::DeviceInfo;
use crate::bytes::{bytes_equal, le_bytes};
use crate::crypto::{
    derive_session_key, p256_is_public_key, p256_public_key, p256_shared_secret, session_key_of,
    EcdhKeypair,
};
use crate::download::{download_valid, Download, DownloadView, PhaseView};
use crate::error::RecorderError;
use crate::protocol::{
    command, delete_file_command, ecdh_pubkey_command, file_list, file_list_request,
    file_sizes_fit, parse_ecdh_response, parse_file_list, parse_response, recording_sizes_fit,
    response_header, response_pubkey, response_shared_key, EcdhResponse, FileInfo, ResponseHeader,
    CMD_DELETE_FILE, CMD_ENCRYPT_KEY_EXCHANGE, CMD_GET_ALL_FILES, CMD_TYPE_ENCRYPT, CMD_TYPE_FILE,
    ECDH_RESPONSE_SIZE,
};
use crate::text::{decimal, hex_digits, push_decimal, push_hex_digits, text_of};

verus! {

/// Supported device families.
#[derive(Debug, Clone, Copy, PartialEq, Eq, Structural)]
pub enum DeviceKind {
    /// Anker Soundcore Work D3200
    SoundcoreD3200,
}

impl DeviceKind {
    /// The name of the family.
    pub open spec fn name(&self) -> Seq<char> {
        match self {
            DeviceKind::SoundcoreD3200 => "Soundcore D3200"@,
        }
    }

    /// The name of the family.
    pub fn to_string(&self) -> (r: String)
        ensures
            r@ == self.name(),
    {
        match self {
            DeviceKind::SoundcoreD3200 => text_of("Soundcore D3200"),
        }
    }
}

/// A recording device that was found in a scan.
#[derive(Debug, Clone)]
pub struct Device {
    pub name: String,
    pub address: String,
    pub kind: DeviceKind,
}

impl Device {
    /// The device as text: `name (address) [kind]`.
    pub fn to_string(&self) -> (r: String)
        ensures
            r@ == self.name@ + " ("@ + self.address@ + ") ["@ + self.kind.name() + "]"@,
    {
        let mut out: String = text_of(self.name.as_str());
        out.append(" (");
        out.append(self.address.as_str());
        out.append(") [");
        let kind: String = self.kind.to_string();
        out.append(kind.as_str());
        out.append("]");
        out
    }
}

/// The devices that a scan found, in order, as devices of the family that it looked for. A filter
/// keeps one family; without a filter every family is kept.
pub fn scanned_devices(filter: Option<DeviceKind>, found: Vec<DeviceInfo>) -> (r: Vec<Device>)
    ensures
        r@.len() == found@.len(),
        forall|i: int|
            0 <= i < r@.len() ==> (#[trigger] r@[i]).name@ == found@[i].name@ && r@[i].address@
                == found@[i].address@ && r@[i].kind == DeviceKind::SoundcoreD3200 && (filter matches
                Some(kind) ==> r@[i].kind == kind),
{
    match filter {
        None | Some(DeviceKind::SoundcoreD3200) => {},
    }
    let mut devices: Vec<Device> = Vec::new();
    let mut i: usize = 0;
    while i < found.len()
        invariant
            i <= found@.len(),
            devices@.len() == i,
            forall|j: int|
                0 <= j < i ==> (#[trigger] devices@[j]).name@ == found@[j].name@
                    && devices@[j].address@ == found@[j].address@ && devices@[j].kind
                    == DeviceKind::SoundcoreD3200,
        decreases found@.len() - i,
    {
        devices.push(
            Device {
                name: found[i].name.clone(),
                address: found[i].address.clone(),
                kind: DeviceKind::SoundcoreD3200,
            },
        );
        i += 1;
    }
    devices
}

/// The state of a session with a recorder.
pub struct Recorder {
    session_key: Option<[u8; 32]>,
    pub kind: DeviceKind,
}

/// The session under the name of the device family.
pub type SoundcoreRecorder = Recorder;

/// Whether a reply to the list request is answered with an error, and with which text.
pub open spec fn list_files_error(resp: Seq<u8>) -> Option<Seq<char>> {
    match response_header(resp) {
        None => Some("invalid file list response"@),
        Some(h) => {
            if h.cmd_type != CMD_TYPE_FILE || h.cmd_id != CMD_GET_ALL_FILES {
                Some(
                    "unexpected response: "@ + hex_digits(h.cmd_type as nat, 2) + hex_digits(
                        h.cmd_id as nat,
                        2,
                    ),
                )
            } else if file_list(resp) is None {
                Some("failed to parse file list"@)
            } else {
                None
            }
        },
    }
}

/// Whether a reply to the list request can be counted in 32 bits: either it is answered with an
/// error for its header, or the size of every recording fits.
pub open spec fn list_reply_fits(resp: Seq<u8>) -> bool {
    response_header(resp) matches Some(h) ==> h.cmd_type == CMD_TYPE_FILE && h.cmd_id
        == CMD_GET_ALL_FILES ==> file_sizes_fit(resp)
}

/// Whether a reply to the delete request is answered with an error, and with which text.
pub open spec fn delete_file_error(resp: Seq<u8>) -> Option<Seq<char>> {
    match response_header(resp) {
        None => Some("invalid delete response"@),
        Some(h) => {
            if h.success_flag != 1 {
                Some("delete_file failed: flag="@ + decimal(h.success_flag as nat))
            } else {
                None
            }
        },
    }
}

/// The text for a key exchange response of `len` bytes that is too short.
pub open spec fn short_response_text(len: nat) -> Seq<char> {
    "ECDH response too short: "@ + decimal(len) + " bytes (need "@ + decimal(106) + ")"@
}

impl Recorder {
    /// The session key, once there is one.
    pub closed spec fn key(&self) -> Option<Seq<u8>> {
        match self.session_key {
            Some(key) => Some(key@),
            None => None,
        }
    }

    /// The family of the device.
    pub closed spec fn family(&self) -> DeviceKind {
        self.kind
    }

    /// A session that has no key yet.
    pub fn new(kind: DeviceKind) -> (r: Self)
        ensures
            r.key() is None,
            r.family() == kind,
    {
        Recorder { session_key: None, kind }
    }

    /// Sets the session key directly, for testing or where the key is known.
    pub fn set_session_key(&mut self, key: [u8; 32])
        ensures
            final(self).key() == Some(key@),
            final(self).family() == old(self).family(),
    {
        self.session_key = Some(key);
    }

    /// A command packet with the standard header, length and checksum.
    pub fn build_command(cmd_type: u8, cmd_id: u8, payload: &[u8]) -> (r: Vec<u8>)
        ensures
            r@ == command(cmd_type, cmd_id, payload@),
    {
        crate::protocol::build_command(cmd_type, cmd_id, payload)
    }

    // ---------- Handshake ----------
    /// Starts a handshake: makes a key pair, and the command that sends its public key.
    pub fn begin_handshake(&self) -> (r: (EcdhKeypair, Vec<u8>))
        ensures
            p256_public_key(r.0.scalar()) == Some(r.0.advertised_key()),
            p256_is_public_key(r.0.advertised_key()),
            r.0.advertised_key().len() == 65,
            r.0.advertised_key()[0] == 4,
            r.1@ == command(CMD_TYPE_ENCRYPT, CMD_ENCRYPT_KEY_EXCHANGE, r.0.advertised_key()),
    {
        let keypair: EcdhKeypair = EcdhKeypair::generate();
        let request: Vec<u8> = ecdh_pubkey_command(keypair.public_key());
        (keypair, request)
    }

    /// Compares the shared secret with the one that the device sent, and takes up the session key
    /// that follows from it.
    pub fn adopt_shared_secret(&mut self, shared_secret: &[u8; 32], device_shared_key: &[u8]) -> (r:
        Result<(), RecorderError>)
        ensures
            r is Ok <==> shared_secret@ == device_shared_key@,
            r is Ok ==> final(self).key() == Some(session_key_of(shared_secret@)),
            r is Err ==> final(self).key() == old(self).key(),
            r matches Err(e) ==> (e matches RecorderError::HandshakeFailed(detail) && detail@
                == "ECDH shared secret mismatch — device computed a different value"@),
            final(self).family() == old(self).family(),
    {
        if !bytes_equal(shared_secret, device_shared_key) {
            return Err(
                RecorderError::HandshakeFailed(
                    text_of("ECDH shared secret mismatch — device computed a different value"),
                ),
            );
        }
        let key: [u8; 32] = derive_session_key(shared_secret);
        self.session_key = Some(key);
        Ok(())
    }

    /// Finishes a handshake with the response of the device. The session has a key afterwards if
    /// and only if the device showed that it computed the same secret; otherwise the session is
    /// left as it was.
    ///
    /// A device that holds the secret of the public key that it sent, and that computed its side
    /// from the public key of the key pair, is always accepted.
    pub fn complete_handshake(&mut self, keypair: EcdhKeypair, resp: &[u8]) -> (r: Result<
        (),
        RecorderError,
    >)
        ensures
            r is Ok <==> {
                &&& resp@.len() >= ECDH_RESPONSE_SIZE
                &&& p256_is_public_key(response_pubkey(resp@))
                &&& p256_shared_secret(keypair.scalar(), response_pubkey(resp@))
                    == response_shared_key(resp@)
            },
            r is Ok ==> final(self).key() == Some(session_key_of(response_shared_key(resp@))),
            r is Err ==> final(self).key() == old(self).key(),
            final(self).family() == old(self).family(),
            r matches Err(e) ==> {
                if resp@.len() < ECDH_RESPONSE_SIZE {
                    e matches RecorderError::HandshakeFailed(detail) && detail@
                        == short_response_text(resp@.len())
                } else if !p256_is_public_key(response_pubkey(resp@)) {
                    e matches RecorderError::CryptoError(detail) && detail@
                        == "invalid device public key: "@ + "crypto error"@
                } else {
                    e matches RecorderError::HandshakeFailed(detail) && detail@
                        == "ECDH shared secret mismatch — device computed a different value"@
                }
            },
            forall|device: Seq<u8>|
                resp@.len() >= ECDH_RESPONSE_SIZE && #[trigger] p256_public_key(device) == Some(
                    response_pubkey(resp@),
                )
                    && p256_shared_secret(device, p256_public_key(keypair.scalar())->0)
                    == response_shared_key(resp@) ==> r is Ok,
    {
        let response: EcdhResponse = match parse_ecdh_response(resp) {
            Some(response) => response,
            None => {
                let mut detail: String = text_of("ECDH response too short: ");
                push_decimal(&mut detail, resp.len() as u64);
                detail.append(" bytes (need ");
                push_decimal(&mut detail, ECDH_RESPONSE_SIZE as u64);
                detail.append(")");
                return Err(RecorderError::HandshakeFailed(detail));
            },
        };
        match keypair.derive_shared_secret(&response.device_pubkey) {
            Err(e) => Err(e),
            Ok(shared_secret) => self.adopt_shared_secret(
                &shared_secret,
                &response.device_shared_key,
            ),
        }
    }

    // ---------- File list ----------
    /// The command that asks for the list of recorded files.
    pub fn list_files_request(&self) -> (r: Vec<u8>)
        ensures
            r@ == command(CMD_TYPE_FILE, CMD_GET_ALL_FILES, le_bytes(0, 2)),
    {
        file_list_request(0)
    }

    /// Tests whether a reply to the list request can be counted in 32 bits, which
    /// `list_files_reply` needs.
    pub fn can_list(&self, resp: &[u8]) -> (r: bool)
        ensures
            r == list_reply_fits(resp@),
    {
        match parse_response(resp) {
            None => true,
            Some(header) => header.cmd_type != CMD_TYPE_FILE || header.cmd_id != CMD_GET_ALL_FILES
                || recording_sizes_fit(resp),
        }
    }

    /// The recorded files that the reply names.
    pub fn list_files_reply(&self, resp: &[u8]) -> (r: Result<Vec<FileInfo>, RecorderError>)
        requires
            list_reply_fits(resp@),
        ensures
            r is Ok <==> list_files_error(resp@) is None,
            r is Ok <==> resp@.len() >= 11 && resp@[5] == 0x1A && resp@[6] == 0x0E,
            r matches Ok(files) ==> Some(files@) == file_list(resp@),
            r matches Err(e) ==> (e matches RecorderError::InvalidResponse(detail) && Some(detail@)
                == list_files_error(resp@)),
    {
        let header: ResponseHeader = match parse_response(resp) {
            Some(header) => header,
            None => {
                return Err(RecorderError::InvalidResponse(text_of("invalid file list response")));
            },
        };
        if header.cmd_type != CMD_TYPE_FILE || header.cmd_id != CMD_GET_ALL_FILES {
            let mut detail: String = text_of("unexpected response: ");
            push_hex_digits(&mut detail, header.cmd_type as u64, 2);
            push_hex_digits(&mut detail, header.cmd_id as u64, 2);
            return Err(RecorderError::InvalidResponse(detail));
        }
        match parse_file_list(resp) {
            Some(files) => Ok(files),
            None => Err(RecorderError::InvalidResponse(text_of("failed to parse file list"))),
        }
    }

    // ---------- Deletion ----------
    /// The command that deletes a file.
    pub fn delete_file_request(&self, file_id: u32) -> (r: Vec<u8>)
        ensures
            r@ == command(
                CMD_TYPE_FILE,
                CMD_DELETE_FILE,
                le_bytes(file_id as nat, 4),
            ),
    {
        delete_file_command(file_id)
    }

    /// Whether the reply says that the file was deleted.
    pub fn delete_file_reply(&self, resp: &[u8]) -> (r: Result<(), RecorderError>)
        ensures
            r is Ok <==> delete_file_error(resp@) is None,
            r is Ok <==> resp@.len() >= 7 && resp@[4] % 16 == 1,
            r matches Err(e) ==> (e matches RecorderError::InvalidResponse(detail) && Some(detail@)
                == delete_file_error(resp@)),
    {
        let header: ResponseHeader = match parse_response(resp) {
            Some(header) => header,
            None => {
                return Err(RecorderError::InvalidResponse(text_of("invalid delete response")));
            },
        };
        if header.success_flag != 1 {
            let mut detail: String = text_of("delete_file failed: flag=");
            push_decimal(&mut detail, header.success_flag as u64);
            return Err(RecorderError::InvalidResponse(detail));
        }
        Ok(())
    }

    // ---------- Download ----------
    /// Starts the download of a file, which needs the session key.
    pub fn start_download(&self, file_id: u32) -> (r: Result<Download, RecorderError>)
        ensures
            r is Ok <==> self.key() is Some,
            r matches Ok(download) ==> download_valid(download@) && download@ == (DownloadView {
                file_id,
                session_key: self.key()->0,
                phase: PhaseView::AwaitingHeader,
            }),
            r matches Err(e) ==> (e matches RecorderError::HandshakeFailed(detail) && detail@
                == "no session key — call handshake() first"@),
    {
        match self.session_key {
            Some(key) => Ok(Download::new(file_id, key)),
            None => Err(
                RecorderError::HandshakeFailed(text_of("no session key — call handshake() first")),
            ),
        }
    }
}

// ---------- Laws ----------
/// A deletion counts as done exactly where the reply has seven bytes and the low half of its status
/// byte is one. A shorter reply is not read; any other flag is told as a number.
pub proof fn law_deletion_needs_flag_one(resp: Seq<u8>)
    ensures
        delete_file_error(resp) is None <==> resp.len() >= 7 && resp[4] % 16 == 1,
        resp.len() < 7 ==> delete_file_error(resp) == Some("invalid delete response"@),
        resp.len() >= 7 && resp[4] % 16 != 1 ==> delete_file_error(resp) == Some(
            "delete_file failed: flag="@ + decimal((resp[4] % 16) as nat),
        ),
{
}

/// A reply is taken as a file list exactly where it has eleven bytes and its sixth and seventh are
/// 1A and 0E. Each other reply has its own error.
pub proof fn law_list_reply_errors(resp: Seq<u8>)
    ensures
        list_files_error(resp) is None <==> resp.len() >= 11 && resp[5] == 0x1A && resp[6] == 0x0E,
        resp.len() < 7 ==> list_files_error(resp) == Some("invalid file list response"@),
        resp.len() >= 7 && !(resp[5] == 0x1A && resp[6] == 0x0E) ==> list_files_error(resp) == Some(
            "unexpected response: "@ + hex_digits(resp[5] as nat, 2) + hex_digits(
                resp[6] as nat,
                2,
            ),
        ),
        7 <= resp.len() < 11 && resp[5] == 0x1A && resp[6] == 0x0E ==> list_files_error(resp)
            == Some("failed to parse file list"@),
{
}

/// Only a file list is asked for the sizes of its recordings.
pub proof fn law_list_reply_fits(resp: Seq<u8>)
    ensures
        list_reply_fits(resp) <==> resp.len() < 7 || resp[5] != 0x1A || resp[6] != 0x0E
            || file_sizes_fit(resp),
{
}

/// The text for a key exchange response that is too short names its length and the length that is
/// needed.
pub proof fn law_short_response_text(len: nat)
    ensures
        short_response_text(len) == "ECDH response too short: "@ + decimal(len) + " bytes (need "@
            + seq!['1', '0', '6'] + ")"@,
{
    reveal_with_fuel(decimal, 4);
    assert(decimal(106) =~= seq!['1', '0', '6']);
}

/// The name of the device family.
pub proof fn law_kind_name(kind: DeviceKind)
    ensures
        kind.name() == "Soundcore D3200"@,
{
}

} // verus!
