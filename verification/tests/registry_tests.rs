use signaling_hub::bridge::closed_envelope;
use signaling_hub::models::{
    Client, ClientId, Command, CommunicationErrors, EntityDetails, Envelope, PingStatus, Status,
};
use signaling_hub::registry::{Registry, DEFAULT_CHANNEL_CAPACITY};

fn fresh(id: u128) -> Client {
    Client {
        username: None,
        email: None,
        user_id: ClientId(id),
        current_socket_addr: Some(format!("10.0.0.{id}:2096")),
        status: Some(Status::WaitingForPartner),
        ping_status: PingStatus::NeverPinged,
    }
}

fn entry_index(r: &Registry, id: u128) -> usize {
    r.entries
        .iter()
        .position(|e| e.client.user_id == ClientId(id))
        .expect("client should be registered")
}

fn snapshot_to(id: u128, roster: Vec<Client>, round: u64) -> Envelope {
    Envelope::new(
        EntityDetails::Server,
        EntityDetails::Client(ClientId(id)),
        None,
        Command::OnlineClients(roster, round),
    )
}

fn hello(client: Client) -> Envelope {
    Envelope::new(
        EntityDetails::Server,
        EntityDetails::Server,
        None,
        Command::ServerInitiated(client),
    )
}

#[test]
fn registration_replies_then_snapshots_everyone() {
    // A registers: A learns its record, then sees a roster of exactly {A}.
    let mut r = Registry::new(DEFAULT_CHANNEL_CAPACITY);
    let fails = r.register(fresh(1)).expect("fresh identity registers");
    assert!(fails.is_empty());
    assert_eq!(r.entries.len(), 1);
    let a = entry_index(&r, 1);
    assert_eq!(
        r.entries[a].outbox[0],
        Envelope::new(
            EntityDetails::Server,
            EntityDetails::Client(ClientId(1)),
            None,
            Command::ClientInfo(fresh(1)),
        )
    );
    assert_eq!(r.entries[a].outbox[1], snapshot_to(1, vec![fresh(1)], 0));
    assert_eq!(r.entries[a].outbox.len(), 2);

    // B registers: both now see a roster of {A, B}.
    r.register(fresh(2)).expect("second identity registers");
    let b = entry_index(&r, 2);
    assert_eq!(
        r.entries[a].outbox[2],
        snapshot_to(1, vec![fresh(1), fresh(2)], 0)
    );
    assert_eq!(
        r.entries[b].outbox[1],
        snapshot_to(2, vec![fresh(1), fresh(2)], 0)
    );
}

#[test]
fn registration_normalizes_presence_and_liveness() {
    let mut r = Registry::new(DEFAULT_CHANNEL_CAPACITY);
    let mut odd = fresh(5);
    odd.status = None;
    odd.ping_status = PingStatus::Ponged(9);
    r.register(odd).unwrap();
    let i = entry_index(&r, 5);
    assert_eq!(r.entries[i].client.status, Some(Status::WaitingForPartner));
    assert_eq!(r.entries[i].client.ping_status, PingStatus::NeverPinged);
}

#[test]
fn identity_collision_is_rejected() {
    let mut r = Registry::new(DEFAULT_CHANNEL_CAPACITY);
    r.register(fresh(1)).unwrap();
    let before = r.entries.len();
    assert_eq!(
        r.register(fresh(1)),
        Err(CommunicationErrors::ChannelInitializationFailed)
    );
    assert_eq!(r.entries.len(), before);
}

#[test]
fn client_info_updates_profile_and_snapshots() {
    // A pushes a profile with a name: A's record's name changes, its
    // identity does not, and both A and B see the updated roster.
    let mut r = Registry::new(DEFAULT_CHANNEL_CAPACITY);
    r.register(fresh(1)).unwrap();
    r.register(fresh(2)).unwrap();
    let mut update = fresh(1);
    update.username = Some("Alice".to_string());
    let env = Envelope::new(
        EntityDetails::Client(ClientId(1)),
        EntityDetails::Server,
        None,
        Command::ClientInfo(update),
    );
    let eff = r.handle_message(env, false).unwrap();
    assert!(eff.reinjected.is_empty());
    assert!(eff.released.is_none());

    let a = entry_index(&r, 1);
    let b = entry_index(&r, 2);
    assert_eq!(r.entries[a].client.username, Some("Alice".to_string()));
    assert_eq!(r.entries[a].client.user_id, ClientId(1));

    let mut named = fresh(1);
    named.username = Some("Alice".to_string());
    let expect_a = snapshot_to(1, vec![named.clone(), fresh(2)], 0);
    let expect_b = snapshot_to(2, vec![named, fresh(2)], 0);
    assert_eq!(r.entries[a].outbox.last().unwrap(), &expect_a);
    assert_eq!(r.entries[b].outbox.last().unwrap(), &expect_b);
}

#[test]
fn relay_reaches_exactly_the_receiver() {
    // A relays a negotiation offer to B through the hub: B's queue receives
    // the envelope unchanged, and no other queue is touched.
    let mut r = Registry::new(DEFAULT_CHANNEL_CAPACITY);
    r.register(fresh(1)).unwrap();
    r.register(fresh(2)).unwrap();
    r.register(fresh(3)).unwrap();
    let a = entry_index(&r, 1);
    let b = entry_index(&r, 2);
    let c = entry_index(&r, 3);
    let before_a = r.entries[a].outbox.clone();
    let before_b = r.entries[b].outbox.clone();
    let before_c = r.entries[c].outbox.clone();

    let offer = Envelope::new(
        EntityDetails::Client(ClientId(1)),
        EntityDetails::Client(ClientId(2)),
        Some(EntityDetails::Server),
        Command::SdpRequest("v=0 offer".to_string()),
    );
    let eff = r.handle_message(offer.clone(), false).unwrap();
    assert!(eff.reinjected.is_empty());
    assert!(eff.released.is_none());

    assert_eq!(r.entries[a].outbox, before_a);
    assert_eq!(r.entries[c].outbox, before_c);
    let mut expected_b = before_b;
    expected_b.push(offer);
    assert_eq!(r.entries[b].outbox, expected_b);
}

#[test]
fn relay_to_unknown_receiver_synthesizes_close() {
    let mut r = Registry::new(DEFAULT_CHANNEL_CAPACITY);
    r.register(fresh(1)).unwrap();
    let offer = Envelope::new(
        EntityDetails::Client(ClientId(1)),
        EntityDetails::Client(ClientId(99)),
        Some(EntityDetails::Server),
        Command::IceCandidate("candidate:1".to_string()),
    );
    let eff = r.handle_message(offer, false).unwrap();
    assert_eq!(
        eff.reinjected,
        vec![Envelope::new(
            EntityDetails::Server,
            EntityDetails::Server,
            None,
            Command::ClosedConnection(ClientId(99)),
        )]
    );
}

#[test]
fn misrouted_envelope_is_dropped_with_error() {
    let mut r = Registry::new(DEFAULT_CHANNEL_CAPACITY);
    r.register(fresh(1)).unwrap();
    let misrouted = Envelope::new(
        EntityDetails::Client(ClientId(1)),
        EntityDetails::Client(ClientId(1)),
        None,
        Command::BroadcastUpdate,
    );
    let entries_before = r.entries.len();
    assert_eq!(
        r.handle_message(misrouted.clone(), false).err(),
        Some(CommunicationErrors::DisallowedEntityType)
    );
    assert_eq!(
        r.process_message(misrouted, false).err(),
        Some(CommunicationErrors::DisallowedEntityType)
    );
    assert_eq!(r.entries.len(), entries_before);
}

#[test]
fn close_removes_acknowledges_and_snapshots_the_rest() {
    // B's bridge detects a transport error and synthesizes the close: B is
    // removed, the doomed queue gets the acknowledgement, and A promptly
    // sees a roster of exactly {A}.
    let mut r = Registry::new(DEFAULT_CHANNEL_CAPACITY);
    r.register(fresh(1)).unwrap();
    r.register(fresh(2)).unwrap();
    let eff = r.handle_message(closed_envelope(ClientId(2)), false).unwrap();
    assert!(eff.reinjected.is_empty());
    let released = eff.released.expect("the closed connection is handed back");
    assert_eq!(released.client.user_id, ClientId(2));
    assert_eq!(
        released.pending.last().unwrap(),
        &Envelope::new(
            EntityDetails::Server,
            EntityDetails::Client(ClientId(2)),
            None,
            Command::AckClosedConnection(ClientId(2)),
        )
    );
    assert_eq!(r.entries.len(), 1);
    let a = entry_index(&r, 1);
    assert_eq!(
        r.entries[a].outbox.last().unwrap(),
        &snapshot_to(1, vec![fresh(1)], 0)
    );
}

#[test]
fn duplicate_close_is_a_no_op() {
    // Processing a second close for an identity already removed changes
    // nothing: no panic, no second broadcast, nothing released.
    let mut r = Registry::new(DEFAULT_CHANNEL_CAPACITY);
    r.register(fresh(1)).unwrap();
    r.register(fresh(2)).unwrap();
    r.handle_message(closed_envelope(ClientId(2)), false).unwrap();
    let a = entry_index(&r, 1);
    let outbox_before = r.entries[a].outbox.clone();

    let eff = r.handle_message(closed_envelope(ClientId(2)), false).unwrap();
    assert!(eff.reinjected.is_empty());
    assert!(eff.released.is_none());
    assert_eq!(r.entries.len(), 1);
    assert_eq!(r.entries[a].outbox, outbox_before);
}

#[test]
fn ready_for_partner_answers_only_the_requester() {
    let mut r = Registry::new(DEFAULT_CHANNEL_CAPACITY);
    r.register(fresh(1)).unwrap();
    r.register(fresh(2)).unwrap();
    let a = entry_index(&r, 1);
    let b = entry_index(&r, 2);
    let before_b = r.entries[b].outbox.clone();
    let env = Envelope::new(
        EntityDetails::Client(ClientId(1)),
        EntityDetails::Server,
        None,
        Command::ReadyForPartner(fresh(1)),
    );
    let eff = r.handle_message(env, false).unwrap();
    assert!(eff.reinjected.is_empty());
    assert_eq!(
        r.entries[a].outbox.last().unwrap(),
        &snapshot_to(1, vec![fresh(1), fresh(2)], 0)
    );
    assert_eq!(r.entries[b].outbox, before_b);
}

#[test]
fn pong_updates_liveness_only() {
    let mut r = Registry::new(DEFAULT_CHANNEL_CAPACITY);
    r.register(fresh(1)).unwrap();
    let a = entry_index(&r, 1);
    let outbox_before = r.entries[a].outbox.clone();
    let env = Envelope::new(
        EntityDetails::Client(ClientId(1)),
        EntityDetails::Server,
        None,
        Command::Pong(ClientId(1), 6),
    );
    let eff = r.handle_message(env, false).unwrap();
    assert!(eff.reinjected.is_empty());
    assert_eq!(r.entries[a].client.ping_status, PingStatus::Ponged(6));
    assert_eq!(r.entries[a].outbox, outbox_before);

    // A pong for an unknown identity changes nothing and does not crash.
    let stray = Envelope::new(
        EntityDetails::Client(ClientId(9)),
        EntityDetails::Server,
        None,
        Command::Pong(ClientId(9), 6),
    );
    r.handle_message(stray, false).unwrap();
    assert_eq!(r.entries.len(), 1);
}

#[test]
fn heartbeat_pings_fresh_clients_and_flags_silent_ones() {
    // A client that never answers is pinged once and then stays flagged
    // `Pinged` across further rounds: not silently healthy, not re-pinged.
    let mut r = Registry::new(DEFAULT_CHANNEL_CAPACITY);
    r.register(fresh(1)).unwrap();
    let a = entry_index(&r, 1);
    let len_before = r.entries[a].outbox.len();

    r.handle_round(1);
    assert_eq!(r.entries[a].client.ping_status, PingStatus::Pinged(1));
    assert_eq!(
        r.entries[a].outbox.last().unwrap(),
        &Envelope::new(
            EntityDetails::Server,
            EntityDetails::Client(ClientId(1)),
            None,
            Command::Ping(ClientId(1), 1),
        )
    );
    assert_eq!(r.entries[a].outbox.len(), len_before + 1);

    r.handle_round(2);
    r.handle_round(3);
    assert_eq!(r.entries[a].client.ping_status, PingStatus::Pinged(1));
    assert_eq!(r.entries[a].outbox.len(), len_before + 1);
    assert_eq!(r.current_round, 3);
}

#[test]
fn heartbeat_repings_after_stale_pong() {
    let mut r = Registry::new(DEFAULT_CHANNEL_CAPACITY);
    r.register(fresh(1)).unwrap();
    let a = entry_index(&r, 1);
    r.handle_round(1);
    let pong = Envelope::new(
        EntityDetails::Client(ClientId(1)),
        EntityDetails::Server,
        None,
        Command::Pong(ClientId(1), 1),
    );
    r.handle_message(pong, false).unwrap();
    assert_eq!(r.entries[a].client.ping_status, PingStatus::Ponged(1));

    // One round past the pong: within the threshold, no new ping.
    r.handle_round(3);
    assert_eq!(r.entries[a].client.ping_status, PingStatus::Ponged(1));

    // Now the pong is older than the threshold: ping again.
    r.handle_round(4);
    assert_eq!(r.entries[a].client.ping_status, PingStatus::Pinged(4));
    assert_eq!(
        r.entries[a].outbox.last().unwrap(),
        &Envelope::new(
            EntityDetails::Server,
            EntityDetails::Client(ClientId(1)),
            None,
            Command::Ping(ClientId(1), 4),
        )
    );
}

#[test]
fn hello_without_registration_payload_is_ignored() {
    let mut r = Registry::new(DEFAULT_CHANNEL_CAPACITY);
    let eff = r.handle_message(hello(fresh(1)), false).unwrap();
    assert!(eff.reinjected.is_empty());
    assert!(eff.released.is_none());
    assert_eq!(r.entries.len(), 0);
}

#[test]
fn registration_through_the_inbound_path() {
    let mut r = Registry::new(DEFAULT_CHANNEL_CAPACITY);
    let released = r.process_message(hello(fresh(1)), true).unwrap();
    assert!(released.is_empty());
    assert_eq!(r.entries.len(), 1);
    assert_eq!(
        r.process_message(hello(fresh(1)), true).err(),
        Some(CommunicationErrors::ChannelInitializationFailed)
    );
}

#[test]
fn full_queues_cascade_into_removal() {
    // With room for two messages per queue, registration fills each new
    // client's queue; the next broadcast cannot be delivered, so the failed
    // deliveries converge on the close path and both clients are removed.
    let mut r = Registry::new(2);
    let released = r.process_message(hello(fresh(1)), true).unwrap();
    assert!(released.is_empty());
    let released = r.process_message(hello(fresh(2)), true).unwrap();
    let mut gone: Vec<u128> = released.iter().map(|rc| {
        let ClientId(x) = rc.client.user_id;
        x
    }).collect();
    gone.sort();
    assert_eq!(gone, vec![1, 2]);
    assert!(r.entries.is_empty());
}

#[test]
fn failed_relay_converges_on_the_close_path() {
    // B's queue is full, so a relay to B cannot be delivered: the failure is
    // re-injected as a close, B is removed, and A sees a roster of {A}.
    let mut r = Registry::new(DEFAULT_CHANNEL_CAPACITY);
    r.register(fresh(1)).unwrap();
    r.register(fresh(2)).unwrap();
    let b = entry_index(&r, 2);
    while r.entries[b].outbox.len() < DEFAULT_CHANNEL_CAPACITY {
        r.entries[b].outbox.push(snapshot_to(2, vec![], 0));
    }
    let offer = Envelope::new(
        EntityDetails::Client(ClientId(1)),
        EntityDetails::Client(ClientId(2)),
        Some(EntityDetails::Server),
        Command::SdpRequest("v=0 offer".to_string()),
    );
    let released = r.process_message(offer, false).unwrap();
    assert_eq!(released.len(), 1);
    assert_eq!(released[0].client.user_id, ClientId(2));
    assert_eq!(r.entries.len(), 1);
    let a = entry_index(&r, 1);
    assert_eq!(
        r.entries[a].outbox.last().unwrap(),
        &snapshot_to(1, vec![fresh(1)], 0)
    );
}

#[test]
fn server_only_commands_are_ignored_when_misdirected() {
    let mut r = Registry::new(DEFAULT_CHANNEL_CAPACITY);
    r.register(fresh(1)).unwrap();
    let a = entry_index(&r, 1);
    let before = r.entries[a].outbox.clone();
    for command in [
        Command::Ping(ClientId(1), 1),
        Command::Error("advisory".to_string()),
        Command::OnlineClients(vec![], 0),
        Command::AckClosedConnection(ClientId(1)),
        Command::SdpRequest("stray".to_string()),
        Command::BroadcastUpdate,
    ] {
        let env = Envelope::new(
            EntityDetails::Client(ClientId(1)),
            EntityDetails::Server,
            None,
            command,
        );
        let eff = r.handle_message(env, false).unwrap();
        assert!(eff.reinjected.is_empty());
        assert!(eff.released.is_none());
    }
    assert_eq!(r.entries[a].outbox, before);
}
