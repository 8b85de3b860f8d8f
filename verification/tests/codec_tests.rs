use signaling_hub::codec::DecodeError;
use signaling_hub::models::{
    Client, ClientId, Command, Entity, EntityDetails, Envelope, PingStatus, Status,
};

fn sample_client() -> Client {
    Client {
        username: Some("Alice".to_string()),
        email: Some("alice@example.com".to_string()),
        user_id: ClientId(7),
        current_socket_addr: Some("127.0.0.1:2096".to_string()),
        status: Some(Status::WaitingForPartner),
        ping_status: PingStatus::NeverPinged,
    }
}

fn round_trip(env: Envelope) {
    let bytes = env.serialize();
    let back = Envelope::deserialize(&bytes).expect("decoding an encoding must succeed");
    assert_eq!(back, env);
}

#[test]
fn round_trip_every_command_kind() {
    let a = ClientId(1);
    let b = ClientId(2);
    let commands = vec![
        Command::BroadcastUpdate,
        Command::InCall(a, b),
        Command::EndCall(a, b),
        Command::ClientInfo(sample_client()),
        Command::Error("something advisory".to_string()),
        Command::ServerInitiated(sample_client()),
        Command::OnlineClients(vec![sample_client()], 42),
        Command::SdpRequest("v=0 offer".to_string()),
        Command::SdpResponse("v=0 answer".to_string()),
        Command::ClosedConnection(a),
        Command::AckClosedConnection(a),
        Command::IceCandidate("candidate:1".to_string()),
        Command::Ping(a, 3),
        Command::Pong(a, 3),
        Command::ReadyForPartner(sample_client()),
    ];
    for command in commands {
        round_trip(Envelope::new(
            EntityDetails::Client(a),
            EntityDetails::Server,
            None,
            command,
        ));
    }
}

#[test]
fn round_trip_relay_addressing() {
    let env = Envelope::new(
        EntityDetails::Client(ClientId(10)),
        EntityDetails::Client(ClientId(20)),
        Some(EntityDetails::Server),
        Command::SdpRequest("relayed".to_string()),
    );
    round_trip(env);
}

#[test]
fn round_trip_empty_roster_and_empty_strings() {
    let bare = Client {
        username: Some(String::new()),
        email: None,
        user_id: ClientId(0),
        current_socket_addr: None,
        status: None,
        ping_status: PingStatus::Ponged(u64::MAX),
    };
    round_trip(Envelope::new(
        EntityDetails::Server,
        EntityDetails::Server,
        None,
        Command::OnlineClients(vec![], 0),
    ));
    round_trip(Envelope::new(
        EntityDetails::Server,
        EntityDetails::Client(ClientId(u128::MAX)),
        Some(EntityDetails::Client(ClientId(5))),
        Command::ClientInfo(bare),
    ));
}

#[test]
fn round_trip_non_ascii_payload() {
    round_trip(Envelope::new(
        EntityDetails::Client(ClientId(1)),
        EntityDetails::Server,
        None,
        Command::Error("ün réseau — 网络 🎧".to_string()),
    ));
}

#[test]
fn encoding_is_deterministic() {
    let env = Envelope::new(
        EntityDetails::Client(ClientId(9)),
        EntityDetails::Server,
        None,
        Command::Ping(ClientId(9), 77),
    );
    assert_eq!(env.serialize(), env.serialize());
}

#[test]
fn empty_input_is_rejected() {
    assert_eq!(Envelope::deserialize(&[]), Err(DecodeError::Truncated));
}

#[test]
fn truncated_input_is_rejected() {
    let env = Envelope::new(
        EntityDetails::Client(ClientId(3)),
        EntityDetails::Server,
        None,
        Command::Error("oops".to_string()),
    );
    let bytes = env.serialize();
    for cut in 0..bytes.len() {
        assert!(
            Envelope::deserialize(&bytes[..cut]).is_err(),
            "a strict prefix of length {cut} must be rejected"
        );
    }
}

#[test]
fn unknown_tag_is_rejected() {
    let env = Envelope::new(
        EntityDetails::Server,
        EntityDetails::Server,
        None,
        Command::BroadcastUpdate,
    );
    let mut bytes = env.serialize();
    // The first byte is the sender's addressing tag.
    bytes[0] = 99;
    assert_eq!(Envelope::deserialize(&bytes), Err(DecodeError::InvalidTag));
}

#[test]
fn invalid_utf8_is_rejected() {
    let env = Envelope::new(
        EntityDetails::Server,
        EntityDetails::Server,
        None,
        Command::Error("hi".to_string()),
    );
    let mut bytes = env.serialize();
    // Layout: sender tag (1) + no-intermediary tag (1) + receiver tag (1)
    // + command tag (1) + string byte count (8), then the UTF-8 bytes.
    bytes[12] = 0xFF;
    assert_eq!(Envelope::deserialize(&bytes), Err(DecodeError::InvalidUtf8));
}

#[test]
fn trailing_bytes_are_rejected() {
    let env = Envelope::new(
        EntityDetails::Server,
        EntityDetails::Server,
        None,
        Command::BroadcastUpdate,
    );
    let mut bytes = env.serialize();
    bytes.push(0);
    assert_eq!(Envelope::deserialize(&bytes), Err(DecodeError::TrailingBytes));
}

#[test]
fn decoded_entities_are_rebuilt_well_formed() {
    let env = Envelope::new(
        EntityDetails::Client(ClientId(4)),
        EntityDetails::Server,
        Some(EntityDetails::Server),
        Command::BroadcastUpdate,
    );
    let back = Envelope::deserialize(&env.serialize()).unwrap();
    assert_eq!(back.sender, Entity::new(EntityDetails::Client(ClientId(4))));
    assert_eq!(back.receiver, Entity::new(EntityDetails::Server));
    assert_eq!(back.intermediary, Some(Entity::new(EntityDetails::Server)));
}
