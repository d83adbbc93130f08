//! What the Bluetooth side decides: which peripherals are recorders, which characteristics to use,
//! and what to make of what comes in.
use vstd::prelude::*;
use vstd::string::*;

use crate::error::RecorderError;
use crate::text::text_of;

verus! {

/// The service that recorders advertise.
pub const SERVICE_UUID: u128 = 0x020cf5da_0000_1000_8000_00805f9b34fb;

// ---------- Device info ----------
/// A peripheral that was recognised as a recorder.
#[derive(Debug, Clone)]
pub struct DeviceInfo {
    pub name: String,
    pub address: String,
}

impl DeviceInfo {
    /// The device as text: `name (address)`.
    pub fn to_string(&self) -> (r: String)
        ensures
            r@ == self.name@ + " ("@ + self.address@ + ")"@,
    {
        let mut out: String = text_of(self.name.as_str());
        out.append(" (");
        out.append(self.address.as_str());
        out.append(")");
        out
    }
}

/// Whether a service is in a list.
fn has_service(services: &[u128], uuid: u128) -> (r: bool)
    ensures
        r == services@.contains(uuid),
{
    let mut i: usize = 0;
    while i < services.len()
        invariant
            i <= services@.len(),
            forall|j: int| 0 <= j < i ==> services@[j] != uuid,
        decreases services@.len() - i,
    {
        if services[i] == uuid {
            return true;
        }
        i += 1;
    }
    false
}

/// Recognises a recorder by the service that it advertises. One that gives no name is called
/// `Soundcore`.
pub fn recognise_device(
    local_name: Option<String>,
    services: &[u128],
    address: String,
) -> (r: Option<DeviceInfo>)
    ensures
        r is Some <==> services@.contains(SERVICE_UUID),
        r matches Some(info) ==> info.address@ == address@ && info.name@ == (match local_name {
            Some(name) => name@,
            None => "Soundcore"@,
        }),
{
    if !has_service(services, SERVICE_UUID) {
        return None;
    }
    let name: String = match local_name {
        Some(name) => name,
        None => text_of("Soundcore"),
    };
    Some(DeviceInfo { name, address })
}

// ---------- Characteristics ----------
/// What matters of a GATT characteristic.
#[derive(Debug, Clone, Copy)]
pub struct CharacteristicInfo {
    pub service_uuid: u128,
    pub write: bool,
    pub write_without_response: bool,
    pub notify: bool,
}

/// What a characteristic is used for.
#[derive(Debug, Clone, Copy, PartialEq, Eq, Structural)]
pub enum CharacteristicRole {
    Write,
    Notify,
}

/// How to write to a characteristic.
#[derive(Debug, Clone, Copy, PartialEq, Eq, Structural)]
pub enum WriteMode {
    WithResponse,
    WithoutResponse,
}

impl CharacteristicInfo {
    /// Whether a characteristic can be used for a role.
    pub open spec fn serves(&self, role: CharacteristicRole) -> bool {
        match role {
            CharacteristicRole::Write => self.write || self.write_without_response,
            CharacteristicRole::Notify => self.notify,
        }
    }

    /// Whether a characteristic can be used for a role.
    fn can_serve(&self, role: CharacteristicRole) -> (r: bool)
        ensures
            r == self.serves(role),
    {
        match role {
            CharacteristicRole::Write => self.write || self.write_without_response,
            CharacteristicRole::Notify => self.notify,
        }
    }

    /// How to write to the characteristic: with a response where it can give one.
    pub fn write_mode(&self) -> (r: WriteMode)
        ensures
            r == (if self.write {
                WriteMode::WithResponse
            } else {
                WriteMode::WithoutResponse
            }),
    {
        if self.write {
            WriteMode::WithResponse
        } else {
            WriteMode::WithoutResponse
        }
    }
}

/// The first characteristic from place `i` on that serves a role, in the recorder's own service
/// where `own` is set.
pub open spec fn first_serving(
    chars: Seq<CharacteristicInfo>,
    role: CharacteristicRole,
    own: bool,
    i: nat,
) -> Option<nat>
    decreases chars.len() - i,
{
    if i >= chars.len() {
        None
    } else if chars[i as int].serves(role) && (own ==> chars[i as int].service_uuid
        == SERVICE_UUID) {
        Some(i)
    } else {
        first_serving(chars, role, own, i + 1)
    }
}

/// The characteristic to use for a role: the first one in the recorder's own service, or else the
/// first one of all.
pub open spec fn chosen_characteristic(
    chars: Seq<CharacteristicInfo>,
    role: CharacteristicRole,
) -> Option<nat> {
    match first_serving(chars, role, true, 0) {
        Some(i) => Some(i),
        None => first_serving(chars, role, false, 0),
    }
}

/// The name of a role in an error.
pub open spec fn role_name(role: CharacteristicRole) -> Seq<char> {
    match role {
        CharacteristicRole::Write => "write"@,
        CharacteristicRole::Notify => "notify"@,
    }
}

fn find_serving(chars: &[CharacteristicInfo], role: CharacteristicRole, own: bool) -> (r: Option<
    usize,
>)
    ensures
        first_serving(chars@, role, own, 0) == (match r {
            Some(i) => Some(i as nat),
            None => None,
        }),
        r matches Some(i) ==> i < chars@.len(),
{
    let mut i: usize = 0;
    while i < chars.len()
        invariant
            i <= chars@.len(),
            first_serving(chars@, role, own, 0) == first_serving(chars@, role, own, i as nat),
        decreases chars@.len() - i,
    {
        if chars[i].can_serve(role) && (!own || chars[i].service_uuid == SERVICE_UUID) {
            return Some(i);
        }
        i += 1;
    }
    None
}

/// Chooses the characteristic for a role.
pub fn choose_characteristic(chars: &[CharacteristicInfo], role: CharacteristicRole) -> (r: Result<
    usize,
    RecorderError,
>)
    ensures
        r matches Ok(i) ==> i < chars@.len() && chosen_characteristic(chars@, role) == Some(
            i as nat,
        ),
        r is Err <==> chosen_characteristic(chars@, role) is None,
        r matches Err(e) ==> (e matches RecorderError::CharacteristicNotFound(detail) && detail@
            == role_name(role)),
{
    match find_serving(chars, role, true) {
        Some(i) => Ok(i),
        None => match find_serving(chars, role, false) {
            Some(i) => Ok(i),
            None => Err(
                RecorderError::CharacteristicNotFound(
                    match role {
                        CharacteristicRole::Write => text_of("write"),
                        CharacteristicRole::Notify => text_of("notify"),
                    },
                ),
            ),
        },
    }
}

// ---------- Incoming packets ----------
/// What waiting for a packet can come to.
pub enum Incoming {
    Packet(Vec<u8>),
    Closed,
    TimedOut,
}

/// The packet, or why there is none.
pub fn received(incoming: Incoming) -> (r: Result<Vec<u8>, RecorderError>)
    ensures
        match incoming {
            Incoming::Packet(data) => r == Ok::<Vec<u8>, RecorderError>(data),
            Incoming::Closed => r == Err::<Vec<u8>, RecorderError>(RecorderError::Disconnected),
            Incoming::TimedOut => r == Err::<Vec<u8>, RecorderError>(RecorderError::Timeout),
        },
{
    match incoming {
        Incoming::Packet(data) => Ok(data),
        Incoming::Closed => Err(RecorderError::Disconnected),
        Incoming::TimedOut => Err(RecorderError::Timeout),
    }
}

// ---------- Laws ----------
proof fn lemma_first_serving(
    chars: Seq<CharacteristicInfo>,
    role: CharacteristicRole,
    own: bool,
    i: nat,
)
    ensures
        match first_serving(chars, role, own, i) {
            Some(k) => {
                &&& i <= k < chars.len()
                &&& chars[k as int].serves(role)
                &&& own ==> chars[k as int].service_uuid == SERVICE_UUID
                &&& forall|j: int|
                    i <= j < k && (#[trigger] chars[j]).serves(role) ==> own
                        && chars[j].service_uuid != SERVICE_UUID
            },
            None => forall|j: int|
                i <= j < chars.len() && (#[trigger] chars[j]).serves(role) ==> own
                    && chars[j].service_uuid != SERVICE_UUID,
        },
    decreases chars.len() - i,
{
    if i < chars.len() {
        lemma_first_serving(chars, role, own, i + 1);
    }
}

/// A characteristic can be written to where it has either of the two write flags, and notifies
/// where it has the notify flag.
pub proof fn law_roles(c: CharacteristicInfo)
    ensures
        c.serves(CharacteristicRole::Write) <==> c.write || c.write_without_response,
        c.serves(CharacteristicRole::Notify) <==> c.notify,
        role_name(CharacteristicRole::Write) == "write"@,
        role_name(CharacteristicRole::Notify) == "notify"@,
        SERVICE_UUID == 0x020cf5da_0000_1000_8000_00805f9b34fbu128,
{
}

/// A characteristic is chosen exactly where one serves the role; it serves the role itself; it is
/// in the recorder's own service wherever one there serves the role; and none that is as good
/// comes before it.
pub proof fn law_characteristic_choice(chars: Seq<CharacteristicInfo>, role: CharacteristicRole)
    ensures
        chosen_characteristic(chars, role) is Some <==> exists|j: int|
            0 <= j < chars.len() && (#[trigger] chars[j]).serves(role),
        chosen_characteristic(chars, role) matches Some(k) ==> {
            &&& k < chars.len()
            &&& chars[k as int].serves(role)
            &&& (exists|j: int|
                0 <= j < chars.len() && (#[trigger] chars[j]).serves(role) && chars[j].service_uuid
                    == SERVICE_UUID) ==> chars[k as int].service_uuid == SERVICE_UUID
            &&& forall|j: int|
                0 <= j < k && (#[trigger] chars[j]).serves(role) ==> chars[j].service_uuid
                    != SERVICE_UUID && chars[k as int].service_uuid == SERVICE_UUID
        },
{
    lemma_first_serving(chars, role, true, 0);
    lemma_first_serving(chars, role, false, 0);
    if let Some(k) = chosen_characteristic(chars, role) {
        assert(chars[k as int].serves(role));
    }
}

} // verus!
