use signaling_hub::bridge::{
    accept_client, closed_envelope, greeting_envelope, handle_frame, registration_envelope,
    BridgeAction, TransportFrame,
};
use signaling_hub::models::{
    ChannelType, Client, ClientId, Command, CommunicationErrors, Entity, EntityDetails,
    EntityTypes, Envelope, PingStatus, PingTime, Status,
};
use signaling_hub::ticker::{HeartbeatTicker, DEFAULT_ROUND_INTERVAL_SECS};

fn record(id: u128) -> Client {
    Client {
        username: None,
        email: None,
        user_id: ClientId(id),
        current_socket_addr: None,
        status: Some(Status::WaitingForPartner),
        ping_status: PingStatus::NeverPinged,
    }
}

#[test]
fn entity_kind_follows_the_detail() {
    let c = Entity::new(EntityDetails::Client(ClientId(1)));
    assert_eq!(c.entity_type, EntityTypes::Client);
    assert_eq!(c.entity_detail, EntityDetails::Client(ClientId(1)));
    let s = Entity::new(EntityDetails::Server);
    assert_eq!(s.entity_type, EntityTypes::Server);
}

#[test]
fn ping_status_equality_compares_rounds() {
    assert_eq!(PingStatus::Pinged(3), PingStatus::Pinged(3));
    assert_ne!(PingStatus::Pinged(3), PingStatus::Pinged(4));
    assert_eq!(PingStatus::NeverPinged, PingStatus::NeverPinged);
    assert_ne!(PingStatus::NeverPinged, PingStatus::Pinged(0));
    assert_eq!(PingStatus::Ponged(7), PingStatus::Ponged(7));
    assert_ne!(PingStatus::Ponged(7), PingStatus::Pinged(7));
    assert_ne!(PingStatus::Ponged(7), PingStatus::Ponged(8));
}

#[test]
fn client_update_overwrites_profile_and_identity() {
    let mut c = record(1);
    let mut newer = record(2);
    newer.username = Some("Bo".to_string());
    newer.email = Some("bo@example.com".to_string());
    c.update(newer);
    assert_eq!(c.user_id, ClientId(2));
    assert_eq!(c.username, Some("Bo".to_string()));
    assert_eq!(c.email, Some("bo@example.com".to_string()));
}

#[test]
fn client_from_user_id_is_bare() {
    let c = Client::from_user_id(ClientId(9));
    assert_eq!(c.user_id, ClientId(9));
    assert_eq!(c.username, None);
    assert_eq!(c.email, None);
    assert_eq!(c.current_socket_addr, None);
    assert_eq!(c.status, None);
    assert_eq!(c.ping_status, PingStatus::NeverPinged);
}

#[test]
fn replace_with_newer_values_requires_matching_identity() {
    let mut c = record(1);
    let mut newer = record(1);
    newer.username = Some("Alice".to_string());
    newer.current_socket_addr = Some("10.0.0.1:2096".to_string());
    assert!(c.replace_with_newer_values(newer).is_ok());
    assert_eq!(c.username, Some("Alice".to_string()));
    assert_eq!(c.current_socket_addr, Some("10.0.0.1:2096".to_string()));
    assert_eq!(c.status, Some(Status::WaitingForPartner));

    let before = c.clone();
    let stranger = record(2);
    assert!(c.replace_with_newer_values(stranger).is_err());
    assert_eq!(c, before);
}

#[test]
fn reversed_swaps_sender_and_receiver() {
    let env = Envelope::new(
        EntityDetails::Client(ClientId(1)),
        EntityDetails::Server,
        Some(EntityDetails::Server),
        Command::Pong(ClientId(1), 4),
    );
    let rev = env.reversed();
    assert_eq!(rev.sender, env.receiver);
    assert_eq!(rev.receiver, env.sender);
    assert_eq!(rev.intermediary, env.intermediary);
    assert_eq!(rev.command, env.command);
}

#[test]
fn negotiation_payloads_serve_the_communication_channel() {
    assert_eq!(
        Command::SdpRequest("o".to_string()).channel_type(),
        ChannelType::Communication
    );
    assert_eq!(
        Command::SdpResponse("a".to_string()).channel_type(),
        ChannelType::Communication
    );
    assert_eq!(
        Command::IceCandidate("c".to_string()).channel_type(),
        ChannelType::Communication
    );
    assert_eq!(Command::BroadcastUpdate.channel_type(), ChannelType::Signaling);
    assert_eq!(
        Command::Ping(ClientId(1), 1).channel_type(),
        ChannelType::Signaling
    );
}

#[test]
fn communication_errors_are_distinct() {
    assert_ne!(
        CommunicationErrors::DisallowedEntityType,
        CommunicationErrors::ChannelInitializationFailed
    );
}

#[test]
fn ticker_counts_rounds_monotonically() {
    let mut t = HeartbeatTicker::new(PingTime::Every(DEFAULT_ROUND_INTERVAL_SECS));
    assert_eq!(t.tick(), 1);
    assert_eq!(t.tick(), 2);
    assert_eq!(t.tick(), 3);
    assert_eq!(t.next_round, 4);
}

#[test]
fn ticker_saturates_at_the_end_of_the_number_space() {
    let mut t = HeartbeatTicker::new(PingTime::Never);
    t.next_round = u64::MAX;
    assert_eq!(t.tick(), u64::MAX);
    assert_eq!(t.tick(), u64::MAX);
}

#[test]
fn ticker_interval_bounds_follow_the_configuration() {
    assert_eq!(HeartbeatTicker::new(PingTime::Never).interval_bounds(), None);
    assert_eq!(
        HeartbeatTicker::new(PingTime::Every(10)).interval_bounds(),
        Some((10, 10))
    );
    assert_eq!(
        HeartbeatTicker::new(PingTime::RandomBetween(5, 9)).interval_bounds(),
        Some((5, 9))
    );
}

#[test]
fn accepted_clients_start_waiting_and_unpinged() {
    let c = accept_client(Some("192.0.2.1:4444".to_string()));
    assert_eq!(c.username, None);
    assert_eq!(c.email, None);
    assert_eq!(c.current_socket_addr, Some("192.0.2.1:4444".to_string()));
    assert_eq!(c.status, Some(Status::WaitingForPartner));
    assert_eq!(c.ping_status, PingStatus::NeverPinged);
}

#[test]
fn minted_identities_differ() {
    // The identity is random; two accepts must not share it.
    let a = accept_client(None);
    let b = accept_client(None);
    assert_ne!(a.user_id, b.user_id);
}

#[test]
fn bridge_envelopes_are_addressed_as_the_protocol_asks() {
    let c = record(3);
    let reg = registration_envelope(&c);
    assert_eq!(reg.sender.entity_detail, EntityDetails::Server);
    assert_eq!(reg.receiver.entity_detail, EntityDetails::Server);
    assert_eq!(reg.intermediary, None);
    assert_eq!(reg.command, Command::ServerInitiated(c.clone()));

    let greet = greeting_envelope(&c);
    assert_eq!(greet.sender.entity_detail, EntityDetails::Server);
    assert_eq!(
        greet.receiver.entity_detail,
        EntityDetails::Client(ClientId(3))
    );
    assert_eq!(greet.command, Command::ServerInitiated(c));

    let closed = closed_envelope(ClientId(3));
    assert_eq!(
        closed.sender.entity_detail,
        EntityDetails::Client(ClientId(3))
    );
    assert_eq!(closed.receiver.entity_detail, EntityDetails::Server);
    assert_eq!(closed.command, Command::ClosedConnection(ClientId(3)));
}

#[test]
fn bridge_forwards_decoded_binary_frames() {
    let env = Envelope::new(
        EntityDetails::Client(ClientId(4)),
        EntityDetails::Server,
        None,
        Command::Pong(ClientId(4), 2),
    );
    match handle_frame(ClientId(4), TransportFrame::Binary(env.serialize())) {
        BridgeAction::Forward(got) => assert_eq!(got, env),
        other => panic!("expected a forward, got {other:?}"),
    }
}

#[test]
fn bridge_drops_malformed_frames_without_disconnecting() {
    match handle_frame(ClientId(4), TransportFrame::Binary(vec![0xFF, 0x00])) {
        BridgeAction::Ignore(Some(_)) => {}
        other => panic!("expected a logged drop, got {other:?}"),
    }
    match handle_frame(ClientId(4), TransportFrame::Text("hello".to_string())) {
        BridgeAction::Ignore(None) => {}
        other => panic!("expected a silent drop, got {other:?}"),
    }
    match handle_frame(ClientId(4), TransportFrame::Ping) {
        BridgeAction::Ignore(None) => {}
        other => panic!("expected a silent drop, got {other:?}"),
    }
}

#[test]
fn bridge_close_frame_synthesizes_the_close() {
    match handle_frame(ClientId(4), TransportFrame::Close) {
        BridgeAction::Disconnect(env) => assert_eq!(env, closed_envelope(ClientId(4))),
        other => panic!("expected a disconnect, got {other:?}"),
    }
}
