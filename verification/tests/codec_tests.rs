use replication::codec::decode_client_input;
use replication::codec::decode_server_message;
use replication::codec::decode_snapshot;
use replication::codec::encode_client_input;
use replication::codec::encode_server_message;
use replication::codec::encode_snapshot;
use replication::data::CameraInput;
use replication::data::ClientData;
use replication::data::ClientInput;
use replication::data::ReplicationError;
use replication::data::ServerMessage;
use replication::data::Vec3Fix;

fn sample_input() -> ClientInput {
    ClientInput {
        forward: true,
        backward: false,
        left: true,
        right: false,
        jump: true,
        camera: CameraInput { pitch: 0x3f000000, yaw: 0xbf490fdb, roll: 7 },
    }
}

#[test]
fn client_input_round_trip() {
    let x = sample_input();
    let bytes = encode_client_input(&x);
    assert_eq!(bytes.len(), 17);
    assert_eq!(decode_client_input(&bytes), Ok(x));
}

#[test]
fn client_input_round_trip_default() {
    let x = ClientInput::default();
    let bytes = encode_client_input(&x);
    assert_eq!(decode_client_input(&bytes), Ok(x));
}

#[test]
fn client_input_exact_layout() {
    let x = ClientInput {
        forward: true,
        backward: false,
        left: false,
        right: true,
        jump: false,
        camera: CameraInput { pitch: 1, yaw: 0x01020304, roll: 0 },
    };
    let bytes = encode_client_input(&x);
    assert_eq!(
        bytes,
        vec![1, 0, 0, 1, 0, 1, 0, 0, 0, 4, 3, 2, 1, 0, 0, 0, 0]
    );
}

#[test]
fn client_input_truncated_is_malformed() {
    let x = sample_input();
    let mut bytes = encode_client_input(&x);
    bytes.pop();
    assert_eq!(
        decode_client_input(&bytes),
        Err(ReplicationError::MalformedMessage)
    );
}

#[test]
fn client_input_oversized_is_malformed() {
    let x = sample_input();
    let mut bytes = encode_client_input(&x);
    bytes.push(0);
    assert_eq!(
        decode_client_input(&bytes),
        Err(ReplicationError::MalformedMessage)
    );
}

#[test]
fn client_input_bad_flag_byte_is_malformed() {
    let x = sample_input();
    let mut bytes = encode_client_input(&x);
    bytes[2] = 2;
    assert_eq!(
        decode_client_input(&bytes),
        Err(ReplicationError::MalformedMessage)
    );
}

#[test]
fn server_message_round_trip_connected() {
    let m = ServerMessage::ClientConnected { id: u64::MAX };
    let bytes = encode_server_message(&m);
    assert_eq!(bytes.len(), 9);
    assert_eq!(bytes[0], 0);
    assert_eq!(decode_server_message(&bytes), Ok(m));
}

#[test]
fn server_message_round_trip_disconnected() {
    let m = ServerMessage::ClientDisconnected { id: 42 };
    let bytes = encode_server_message(&m);
    assert_eq!(bytes[0], 1);
    assert_eq!(decode_server_message(&bytes), Ok(m));
}

#[test]
fn server_message_bad_tag_is_malformed() {
    let m = ServerMessage::ClientConnected { id: 9 };
    let mut bytes = encode_server_message(&m);
    bytes[0] = 7;
    assert_eq!(
        decode_server_message(&bytes),
        Err(ReplicationError::MalformedMessage)
    );
}

#[test]
fn server_message_truncated_is_malformed() {
    assert_eq!(
        decode_server_message(&[0, 1, 2]),
        Err(ReplicationError::MalformedMessage)
    );
}

fn sample_entries() -> Vec<ClientData> {
    vec![
        ClientData {
            id: 1,
            pos: Vec3Fix { x: i64::MAX, y: i64::MIN, z: -1 },
            rot: CameraInput { pitch: 0, yaw: u32::MAX, roll: 5 },
        },
        ClientData {
            id: u64::MAX,
            pos: Vec3Fix { x: 0, y: 0, z: 0 },
            rot: CameraInput { pitch: 1, yaw: 2, roll: 3 },
        },
    ]
}

#[test]
fn snapshot_round_trip_empty() {
    let v: Vec<ClientData> = Vec::new();
    let bytes = encode_snapshot(9, &v);
    assert_eq!(bytes.len(), 16);
    assert_eq!(decode_snapshot(&bytes), Ok((9, Vec::new())));
}

#[test]
fn snapshot_round_trip_two_entries() {
    let v = sample_entries();
    let bytes = encode_snapshot(u64::MAX, &v);
    assert_eq!(bytes.len(), 16 + 2 * 44);
    assert_eq!(decode_snapshot(&bytes), Ok((u64::MAX, v)));
}

#[test]
fn snapshot_count_mismatch_is_malformed() {
    let v = sample_entries();
    let mut bytes = encode_snapshot(1, &v);
    bytes[8] = 3;
    assert_eq!(
        decode_snapshot(&bytes),
        Err(ReplicationError::MalformedMessage)
    );
}

#[test]
fn snapshot_trailing_byte_is_malformed() {
    let v = sample_entries();
    let mut bytes = encode_snapshot(1, &v);
    bytes.push(0);
    assert_eq!(
        decode_snapshot(&bytes),
        Err(ReplicationError::MalformedMessage)
    );
}

#[test]
fn snapshot_truncated_header_is_malformed() {
    assert_eq!(
        decode_snapshot(&[0, 0, 0, 0, 0, 0, 0, 0, 1]),
        Err(ReplicationError::MalformedMessage)
    );
}
