use mic_rs::ble::{
    choose_characteristic, received, recognise_device, CharacteristicInfo, CharacteristicRole,
    Incoming, WriteMode, SERVICE_UUID,
};
use mic_rs::{DeviceInfo, RecorderError};

fn info(own: bool, write: bool, without_response: bool, notify: bool) -> CharacteristicInfo {
    CharacteristicInfo {
        service_uuid: if own { SERVICE_UUID } else { 0x1800 },
        write,
        write_without_response: without_response,
        notify,
    }
}

#[test]
fn service_uuid_text() {
    let uuid = uuid::Uuid::from_u128(SERVICE_UUID);
    assert_eq!(uuid.to_string(), "020cf5da-0000-1000-8000-00805f9b34fb");
}

#[test]
fn devices_are_recognised_by_service() {
    let named = recognise_device(Some("D3200".to_string()), &[1, SERVICE_UUID], "AA".to_string());
    assert_eq!(named.unwrap().to_string(), "D3200 (AA)");
    let nameless = recognise_device(None, &[SERVICE_UUID], "BB".to_string());
    assert_eq!(nameless.unwrap().to_string(), "Soundcore (BB)");
    assert!(recognise_device(Some("D3200".to_string()), &[1, 2], "AA".to_string()).is_none());
    assert!(recognise_device(None, &[], "AA".to_string()).is_none());
}

#[test]
fn device_text() {
    let device = DeviceInfo {
        name: "Soundcore D3200".to_string(),
        address: "AA:BB:CC:DD:EE:FF".to_string(),
    };
    assert_eq!(device.to_string(), "Soundcore D3200 (AA:BB:CC:DD:EE:FF)");
}

#[test]
fn own_service_is_preferred() {
    let chars = [
        info(false, true, false, true),
        info(true, false, false, false),
        info(true, false, true, false),
        info(true, true, false, true),
    ];
    assert_eq!(choose_characteristic(&chars, CharacteristicRole::Write).unwrap(), 2);
    assert_eq!(choose_characteristic(&chars, CharacteristicRole::Notify).unwrap(), 3);
}

#[test]
fn any_service_will_do() {
    let chars = [
        info(true, false, false, false),
        info(false, false, false, true),
        info(false, true, false, true),
    ];
    assert_eq!(choose_characteristic(&chars, CharacteristicRole::Write).unwrap(), 2);
    assert_eq!(choose_characteristic(&chars, CharacteristicRole::Notify).unwrap(), 1);
}

#[test]
fn missing_characteristics() {
    let error = choose_characteristic(&[], CharacteristicRole::Write).unwrap_err();
    assert_eq!(error.to_string(), "GATT characteristic not found: write");
    let chars = [info(true, true, true, false)];
    let error = choose_characteristic(&chars, CharacteristicRole::Notify).unwrap_err();
    assert_eq!(error.to_string(), "GATT characteristic not found: notify");
}

#[test]
fn writes_are_confirmed_where_they_can_be() {
    assert_eq!(info(true, true, true, false).write_mode(), WriteMode::WithResponse);
    assert_eq!(info(true, false, true, false).write_mode(), WriteMode::WithoutResponse);
}

#[test]
fn incoming_packets() {
    assert_eq!(received(Incoming::Packet(vec![1, 2])).unwrap(), [1, 2]);
    assert!(matches!(received(Incoming::Closed), Err(RecorderError::Disconnected)));
    assert!(matches!(received(Incoming::TimedOut), Err(RecorderError::Timeout)));
}
