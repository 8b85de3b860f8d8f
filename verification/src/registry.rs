//! The presence registry and router: the single authoritative owner of the
//! set of known clients and their outbound queues. It applies the routing
//! rules to every inbound envelope, mutates presence state, broadcasts
//! roster snapshots, and drives ping/pong liveness from heartbeat rounds.
//!
//! The registry is a plain state machine: one event in, state change plus
//! effects out. The task that owns it performs the effects (delivering
//! queued envelopes, re-injecting synthesized closures) outside the library.

use vstd::prelude::*;
use crate::models::{
    Client, ClientId, ClientV, Command, CommandV, CommunicationErrors, Entity, EntityDetails,
    EntityTypes, Envelope, EnvelopeV, PingStatus, Status, dup_clients,
};

verus! {

/// Queue bound of each per-client outbound channel.
pub const DEFAULT_CHANNEL_CAPACITY: usize = 10;

/// A client whose last pong is older than this many rounds is pinged again.
pub const PING_EVERY_ROUNDS: u64 = 2;

// ---------------------------------------------------------------------------
// Addressing helpers used throughout the contracts.
// ---------------------------------------------------------------------------

/// The hub itself, as an entity.
pub open spec fn server_entity() -> Entity {
    Entity { entity_type: EntityTypes::Server, entity_detail: EntityDetails::Server }
}

/// A registered client, as an entity.
pub open spec fn client_entity(id: ClientId) -> Entity {
    Entity { entity_type: EntityTypes::Client, entity_detail: EntityDetails::Client(id) }
}

/// A hub-to-client envelope carrying the given command.
pub open spec fn to_client_envelope(id: ClientId, command: CommandV) -> EnvelopeV {
    EnvelopeV {
        sender: server_entity(),
        intermediary: None,
        receiver: client_entity(id),
        command,
    }
}

/// The envelope the router synthesizes and re-injects into its own inbound
/// path when delivery to the given client fails: an explicit close and a
/// failed delivery converge on one cleanup path.
pub open spec fn closed_reinjection(id: ClientId) -> EnvelopeV {
    EnvelopeV {
        sender: server_entity(),
        intermediary: None,
        receiver: server_entity(),
        command: CommandV::ClosedConnection(id),
    }
}

pub open spec fn is_closed_reinjection(e: EnvelopeV) -> bool {
    &&& e.sender == server_entity()
    &&& e.intermediary is None
    &&& e.receiver == server_entity()
    &&& e.command is ClosedConnection
}

/// The mathematical value of a queue of envelopes.
pub open spec fn envs_v(s: Seq<Envelope>) -> Seq<EnvelopeV> {
    s.map_values(|e: Envelope| e@)
}

// ---------------------------------------------------------------------------
// The registry state and its view.
// ---------------------------------------------------------------------------

/// One registered connection: the presence record and the bounded, ordered
/// outbound queue the router fills and the owning connection task drains.
pub struct RegistryEntry {
    pub client: Client,
    pub outbox: Vec<Envelope>,
}

/// Mathematical mirror of `RegistryEntry`.
pub ghost struct RegistryEntryV {
    pub client: ClientV,
    pub outbox: Seq<EnvelopeV>,
}

impl View for RegistryEntry {
    type V = RegistryEntryV;

    open spec fn view(&self) -> RegistryEntryV {
        RegistryEntryV { client: self.client@, outbox: envs_v(self.outbox@) }
    }
}

/// The single authoritative presence map: who is online, with each client's
/// outbound queue, plus the queue bound and the latest heartbeat round.
pub struct Registry {
    pub entries: Vec<RegistryEntry>,
    pub capacity: usize,
    pub current_round: u64,
}

/// Mathematical mirror of `Registry`.
pub ghost struct RegistryV {
    pub entries: Seq<RegistryEntryV>,
    pub capacity: nat,
    pub current_round: u64,
}

impl View for Registry {
    type V = RegistryV;

    open spec fn view(&self) -> RegistryV {
        RegistryV {
            entries: self.entries@.map_values(|e: RegistryEntry| e@),
            capacity: self.capacity as nat,
            current_round: self.current_round,
        }
    }
}

impl RegistryV {
    /// No identity is registered twice, every queue respects the bound, and
    /// the bound admits at least one message.
    pub open spec fn wf(self) -> bool {
        &&& forall|i: int, j: int|
            0 <= i < j < self.entries.len() ==> #[trigger] self.entries[i].client.user_id
                != #[trigger] self.entries[j].client.user_id
        &&& forall|i: int|
            0 <= i < self.entries.len() ==> #[trigger] self.entries[i].outbox.len()
                <= self.capacity
        &&& self.capacity >= 1
    }

    /// Whether the given identity is registered.
    pub open spec fn contains_id(self, id: ClientId) -> bool {
        exists|i: int|
            0 <= i < self.entries.len() && #[trigger] self.entries[i].client.user_id == id
    }

    /// The position of the given identity; meaningful only when registered.
    pub open spec fn index_of(self, id: ClientId) -> int {
        choose|i: int|
            0 <= i < self.entries.len() && #[trigger] self.entries[i].client.user_id == id
    }
}

/// The roster carried by a snapshot: the records of all entries, in order.
pub open spec fn roster_of(entries: Seq<RegistryEntryV>) -> Seq<ClientV> {
    entries.map_values(|e: RegistryEntryV| e.client)
}

/// The roster snapshot command for the given roster and round.
pub open spec fn snapshot_command(roster: Seq<ClientV>, round: u64) -> CommandV {
    CommandV::OnlineClients(roster, round)
}

// ---------------------------------------------------------------------------
// Broadcast fan-out: every entry with room gets the snapshot appended to its
// queue; for every full queue a closed re-injection is synthesized instead.
// One client's full queue never blocks delivery to the others.
// ---------------------------------------------------------------------------

/// What one entry becomes under a snapshot broadcast.
pub open spec fn bcast_entry_post(
    e: RegistryEntryV,
    cap: nat,
    round: u64,
    roster: Seq<ClientV>,
) -> RegistryEntryV {
    if e.outbox.len() < cap {
        RegistryEntryV {
            client: e.client,
            outbox: e.outbox.push(
                to_client_envelope(e.client.user_id, snapshot_command(roster, round)),
            ),
        }
    } else {
        e
    }
}

/// All entries after a snapshot broadcast.
pub open spec fn broadcast_post(
    entries: Seq<RegistryEntryV>,
    cap: nat,
    round: u64,
    roster: Seq<ClientV>,
) -> Seq<RegistryEntryV> {
    entries.map_values(|e: RegistryEntryV| bcast_entry_post(e, cap, round, roster))
}

/// The closed re-injections a broadcast synthesizes: one per full queue, in
/// entry order.
pub open spec fn broadcast_fails(entries: Seq<RegistryEntryV>, cap: nat) -> Seq<EnvelopeV>
    decreases entries.len(),
{
    if entries.len() == 0 {
        Seq::empty()
    } else {
        (if entries[0].outbox.len() < cap {
            Seq::<EnvelopeV>::empty()
        } else {
            seq![closed_reinjection(entries[0].client.user_id)]
        }) + broadcast_fails(entries.drop_first(), cap)
    }
}

proof fn lemma_broadcast_fails_push(entries: Seq<RegistryEntryV>, e: RegistryEntryV, cap: nat)
    ensures
        broadcast_fails(entries.push(e), cap) == broadcast_fails(entries, cap) + (
        if e.outbox.len() < cap {
            Seq::<EnvelopeV>::empty()
        } else {
            seq![closed_reinjection(e.client.user_id)]
        }),
    decreases entries.len(),
{
    let tail = (if e.outbox.len() < cap {
        Seq::<EnvelopeV>::empty()
    } else {
        seq![closed_reinjection(e.client.user_id)]
    });
    if entries.len() == 0 {
        assert(entries.push(e)[0] == e);
        assert(entries.push(e).drop_first() =~= Seq::<RegistryEntryV>::empty());
        assert(broadcast_fails(Seq::<RegistryEntryV>::empty(), cap) == Seq::<EnvelopeV>::empty());
        assert(broadcast_fails(entries.push(e), cap) =~= broadcast_fails(entries, cap) + tail);
    } else {
        assert(entries.push(e)[0] == entries[0]);
        assert(entries.push(e).drop_first() =~= entries.drop_first().push(e));
        lemma_broadcast_fails_push(entries.drop_first(), e, cap);
        assert(broadcast_fails(entries.push(e), cap) =~= broadcast_fails(entries, cap) + tail);
    }
}

/// A broadcast synthesizes at most one re-injection per entry, and every
/// one of them is a closed re-injection.
pub proof fn lemma_broadcast_fails_shape(entries: Seq<RegistryEntryV>, cap: nat)
    ensures
        broadcast_fails(entries, cap).len() <= entries.len(),
        forall|k: int|
            0 <= k < broadcast_fails(entries, cap).len() ==> is_closed_reinjection(
                #[trigger] broadcast_fails(entries, cap)[k],
            ),
    decreases entries.len(),
{
    if entries.len() > 0 {
        lemma_broadcast_fails_shape(entries.drop_first(), cap);
    }
}

impl Registry {
    /// A fresh registry with no clients, the given queue bound, and round 0.
    pub fn new(capacity: usize) -> (r: Registry)
        requires
            capacity >= 1,
        ensures
            r@.wf(),
            r@.entries.len() == 0,
            r@.capacity == capacity,
            r@.current_round == 0,
    {
        let r = Registry { entries: Vec::new(), capacity, current_round: 0 };
        proof {
            assert(r@.entries =~= Seq::<RegistryEntryV>::empty());
        }
        r
    }

    /// Where the given identity sits in the entry list, if it is registered.
    fn find_index(&self, id: ClientId) -> (r: Option<usize>)
        requires
            self@.wf(),
        ensures
            (r matches Some(i) ==> i < self@.entries.len() && self@.entries[i as int].client.user_id
                == id && self@.contains_id(id) && self@.index_of(id) == i),
            r is None ==> !self@.contains_id(id),
    {
        let mut i: usize = 0;
        while i < self.entries.len()
            invariant
                self@.wf(),
                i <= self@.entries.len(),
                forall|j: int| 0 <= j < i ==> #[trigger] self@.entries[j].client.user_id != id,
            decreases self@.entries.len() - i,
        {
            if self.entries[i].client.user_id == id {
                proof {
                    assert(self@.entries[i as int].client.user_id == id);
                    let w = self@.index_of(id);
                    assert(0 <= w < self@.entries.len() && self@.entries[w].client.user_id == id);
                    if w < i {
                        assert(self@.entries[w].client.user_id != self@.entries[
                            i as int
                        ].client.user_id);
                    } else if w > i {
                        let uid_i = self@.entries[i as int].client.user_id;
                        let uid_w = self@.entries[w].client.user_id;
                        assert(uid_i != uid_w);
                    }
                }
                return Some(i);
            }
            i = i + 1;
        }
        None
    }

    /// The records of everyone online, in entry order.
    fn collect_roster(&self) -> (r: Vec<Client>)
        ensures
            r@.map_values(|c: Client| c@) == roster_of(self@.entries),
    {
        let mut r: Vec<Client> = Vec::new();
        let mut i: usize = 0;
        while i < self.entries.len()
            invariant
                i <= self@.entries.len(),
                r@.len() == i,
                r@.map_values(|c: Client| c@) =~= roster_of(self@.entries.take(i as int)),
            decreases self@.entries.len() - i,
        {
            let rec = self.entries[i].client.duplicate();
            let ghost r0 = r@;
            r.push(rec);
            proof {
                let es = self@.entries;
                assert(r@ =~= r0.push(rec));
                assert(es.take(i as int + 1) =~= es.take(i as int).push(es[i as int]));
                let m = r@.map_values(|c: Client| c@);
                let t = roster_of(es.take(i as int + 1));
                assert forall|k: int| 0 <= k < m.len() implies #[trigger] m[k] == t[k] by {
                    if k < i as int {
                        assert(r@[k] == r0[k]);
                        assert(r0.map_values(|c: Client| c@)[k] == roster_of(
                            es.take(i as int),
                        )[k]);
                    } else {
                        assert(r@[k] == rec);
                    }
                }
                assert(m =~= t);
            }
            i = i + 1;
        }
        proof {
            assert(self@.entries.take(self@.entries.len() as int) =~= self@.entries);
        }
        r
    }

    /// Append the roster snapshot to every queue with room; synthesize a
    /// closed re-injection for every queue that is full. The roster and the
    /// round are those current when the broadcast starts.
    fn broadcast_snapshot(&mut self) -> (fails: Vec<Envelope>)
        requires
            old(self)@.wf(),
        ensures
            final(self)@.wf(),
            final(self)@.capacity == old(self)@.capacity,
            final(self)@.current_round == old(self)@.current_round,
            final(self)@.entries == broadcast_post(
                old(self)@.entries,
                old(self)@.capacity,
                old(self)@.current_round,
                roster_of(old(self)@.entries),
            ),
            envs_v(fails@) == broadcast_fails(old(self)@.entries, old(self)@.capacity),
    {
        let ghost entries0 = self@.entries;
        let ghost cap = self@.capacity;
        let ghost round0 = self.current_round;
        let ghost roster0 = roster_of(entries0);
        let roster = self.collect_roster();
        let mut fails: Vec<Envelope> = Vec::new();
        let mut i: usize = 0;
        while i < self.entries.len()
            invariant
                i <= self.entries@.len(),
                self.entries@.len() == entries0.len(),
                self@.capacity == cap,
                self.current_round == round0,
                roster@.map_values(|c: Client| c@) == roster0,
                forall|j: int| i <= j < entries0.len() ==> self@.entries[j] == entries0[j],
                forall|j: int|
                    0 <= j < i ==> self@.entries[j] == bcast_entry_post(
                        #[trigger] entries0[j],
                        cap,
                        round0,
                        roster0,
                    ),
                envs_v(fails@) == broadcast_fails(entries0.take(i as int), cap),
            decreases self.entries@.len() - i,
        {
            let ghost fails0 = envs_v(fails@);
            if self.entries[i].outbox.len() < self.capacity {
                let id = self.entries[i].client.user_id;
                let env = Envelope::new(
                    EntityDetails::Server,
                    EntityDetails::Client(id),
                    None,
                    Command::OnlineClients(dup_clients(&roster), self.current_round),
                );
                self.entries[i].outbox.push(env);
                proof {
                    assert(env@ == to_client_envelope(id, snapshot_command(roster0, round0)));
                    assert(self@.entries[i as int].outbox =~= entries0[i as int].outbox.push(
                        env@,
                    ));
                    assert(self@.entries[i as int] == bcast_entry_post(
                        entries0[i as int],
                        cap,
                        round0,
                        roster0,
                    ));
                }
            } else {
                let id = self.entries[i].client.user_id;
                let env = Envelope::new(
                    EntityDetails::Server,
                    EntityDetails::Server,
                    None,
                    Command::ClosedConnection(id),
                );
                fails.push(env);
                proof {
                    assert(env@ == closed_reinjection(id));
                    assert(self@.entries[i as int] == bcast_entry_post(
                        entries0[i as int],
                        cap,
                        round0,
                        roster0,
                    ));
                }
            }
            proof {
                assert(entries0.take(i as int + 1) =~= entries0.take(i as int).push(
                    entries0[i as int],
                ));
                lemma_broadcast_fails_push(entries0.take(i as int), entries0[i as int], cap);
                assert(envs_v(fails@) =~= broadcast_fails(entries0.take(i as int + 1), cap));
            }
            i = i + 1;
        }
        proof {
            assert(entries0.take(entries0.len() as int) =~= entries0);
            assert(self@.entries =~= broadcast_post(entries0, cap, round0, roster0));
        }
        fails
    }
}

// ---------------------------------------------------------------------------
// The routing operations, each with its post-state predicate. The record of
// the identity named by a control message is looked up, changed, or removed;
// every delivery failure synthesizes a closed re-injection.
// ---------------------------------------------------------------------------

/// A connection removed from the registry, handed back to the caller with
/// whatever was still queued for it (best-effort delivery to a going peer).
pub struct ReleasedConnection {
    pub client: Client,
    pub pending: Vec<Envelope>,
}

/// Mathematical mirror of `ReleasedConnection`.
pub ghost struct ReleasedConnectionV {
    pub client: ClientV,
    pub pending: Seq<EnvelopeV>,
}

impl View for ReleasedConnection {
    type V = ReleasedConnectionV;

    open spec fn view(&self) -> ReleasedConnectionV {
        ReleasedConnectionV { client: self.client@, pending: envs_v(self.pending@) }
    }
}

/// What one routing step asks its caller to do: re-inject the synthesized
/// closures into the inbound path, and drain a released connection.
pub struct Effects {
    pub reinjected: Vec<Envelope>,
    pub released: Option<ReleasedConnection>,
}

/// Mathematical mirror of `Effects`.
pub ghost struct EffectsV {
    pub reinjected: Seq<EnvelopeV>,
    pub released: Option<ReleasedConnectionV>,
}

impl View for Effects {
    type V = EffectsV;

    open spec fn view(&self) -> EffectsV {
        EffectsV {
            reinjected: envs_v(self.reinjected@),
            released: match self.released {
                Some(rc) => Some(rc@),
                None => None,
            },
        }
    }
}

pub open spec fn empty_effects(eff: EffectsV) -> bool {
    eff.reinjected.len() == 0 && eff.released is None
}

/// The record a fresh registration creates: the client's profile with
/// presence reset to waiting and liveness reset to never pinged.
pub open spec fn fresh_record(client: ClientV) -> ClientV {
    ClientV {
        status: Some(Status::WaitingForPartner),
        ping_status: PingStatus::NeverPinged,
        ..client
    }
}

/// Registering a connection (no collision): the new record is appended with
/// its profile reply already queued, then a roster snapshot goes to every
/// client, the new one included.
pub open spec fn register_post(
    pre: RegistryV,
    client: ClientV,
    post: RegistryV,
    fails: Seq<EnvelopeV>,
) -> bool {
    let record = fresh_record(client);
    let reply = to_client_envelope(client.user_id, CommandV::ClientInfo(record));
    let entries1 = pre.entries.push(RegistryEntryV { client: record, outbox: seq![reply] });
    &&& post.capacity == pre.capacity
    &&& post.current_round == pre.current_round
    &&& post.entries == broadcast_post(
        entries1,
        pre.capacity,
        pre.current_round,
        roster_of(entries1),
    )
    &&& fails == broadcast_fails(entries1, pre.capacity)
}

/// The merge a profile update applies: only the mutable profile fields
/// change; identity, presence and liveness stay.
pub open spec fn merged_client(prev: ClientV, new: ClientV) -> ClientV {
    ClientV {
        username: new.username,
        email: new.email,
        current_socket_addr: new.current_socket_addr,
        ..prev
    }
}

/// A profile update: the named record (when registered) has its profile
/// fields merged, then a fresh snapshot goes to every client.
pub open spec fn client_info_post(
    pre: RegistryV,
    client: ClientV,
    post: RegistryV,
    fails: Seq<EnvelopeV>,
) -> bool {
    let entries1 = if pre.contains_id(client.user_id) {
        let i = pre.index_of(client.user_id);
        pre.entries.update(
            i,
            RegistryEntryV {
                client: merged_client(pre.entries[i].client, client),
                outbox: pre.entries[i].outbox,
            },
        )
    } else {
        pre.entries
    };
    &&& post.capacity == pre.capacity
    &&& post.current_round == pre.current_round
    &&& post.entries == broadcast_post(
        entries1,
        pre.capacity,
        pre.current_round,
        roster_of(entries1),
    )
    &&& fails == broadcast_fails(entries1, pre.capacity)
}

/// Addressing one command to one client: queued when the client is
/// registered and its queue has room; otherwise the state is unchanged and
/// a closed re-injection is synthesized for the target.
pub open spec fn send_post(
    pre: RegistryV,
    id: ClientId,
    command: CommandV,
    post: RegistryV,
    fails: Seq<EnvelopeV>,
) -> bool {
    &&& post.capacity == pre.capacity
    &&& post.current_round == pre.current_round
    &&& if pre.contains_id(id) {
        let i = pre.index_of(id);
        if pre.entries[i].outbox.len() < pre.capacity {
            &&& post.entries == pre.entries.update(
                i,
                RegistryEntryV {
                    client: pre.entries[i].client,
                    outbox: pre.entries[i].outbox.push(to_client_envelope(id, command)),
                },
            )
            &&& fails == Seq::<EnvelopeV>::empty()
        } else {
            &&& post.entries == pre.entries
            &&& fails == seq![closed_reinjection(id)]
        }
    } else {
        &&& post.entries == pre.entries
        &&& fails == seq![closed_reinjection(id)]
    }
}

/// A pong from a registered client moves its liveness to `Ponged(round)`;
/// from an unknown client it changes nothing.
pub open spec fn pong_post(pre: RegistryV, id: ClientId, round: u64, post: RegistryV) -> bool {
    &&& post.capacity == pre.capacity
    &&& post.current_round == pre.current_round
    &&& if pre.contains_id(id) {
        let i = pre.index_of(id);
        post.entries == pre.entries.update(
            i,
            RegistryEntryV {
                client: ClientV { ping_status: PingStatus::Ponged(round), ..pre.entries[i].client },
                outbox: pre.entries[i].outbox,
            },
        )
    } else {
        post.entries == pre.entries
    }
}

/// Closing a registered connection removes its record, acknowledges on the
/// doomed queue when there is room (best effort), and broadcasts a fresh
/// snapshot to everyone left. Closing an identity that is already gone is a
/// no-op: no removal, no acknowledgement, and no second broadcast.
pub open spec fn close_post(
    pre: RegistryV,
    id: ClientId,
    post: RegistryV,
    released: Option<ReleasedConnectionV>,
    fails: Seq<EnvelopeV>,
) -> bool {
    &&& post.capacity == pre.capacity
    &&& post.current_round == pre.current_round
    &&& if pre.contains_id(id) {
        let i = pre.index_of(id);
        let e = pre.entries[i];
        let pending = if e.outbox.len() < pre.capacity {
            e.outbox.push(to_client_envelope(id, CommandV::AckClosedConnection(id)))
        } else {
            e.outbox
        };
        let entries1 = pre.entries.remove(i);
        &&& released == Some(ReleasedConnectionV { client: e.client, pending })
        &&& post.entries == broadcast_post(
            entries1,
            pre.capacity,
            pre.current_round,
            roster_of(entries1),
        )
        &&& fails == broadcast_fails(entries1, pre.capacity)
    } else {
        &&& released is None
        &&& post.entries == pre.entries
        &&& fails == Seq::<EnvelopeV>::empty()
    }
}

/// A relay forwards the envelope unmodified into the receiver's queue; the
/// command is not interpreted. A missing receiver or a full queue converges
/// on the closed re-injection path.
pub open spec fn relay_post(
    pre: RegistryV,
    env: EnvelopeV,
    post: RegistryV,
    fails: Seq<EnvelopeV>,
) -> bool {
    let id = env.receiver.entity_detail->0;
    &&& post.capacity == pre.capacity
    &&& post.current_round == pre.current_round
    &&& if pre.contains_id(id) {
        let i = pre.index_of(id);
        if pre.entries[i].outbox.len() < pre.capacity {
            &&& post.entries == pre.entries.update(
                i,
                RegistryEntryV {
                    client: pre.entries[i].client,
                    outbox: pre.entries[i].outbox.push(env),
                },
            )
            &&& fails == Seq::<EnvelopeV>::empty()
        } else {
            &&& post.entries == pre.entries
            &&& fails == seq![closed_reinjection(id)]
        }
    } else {
        &&& post.entries == pre.entries
        &&& fails == seq![closed_reinjection(id)]
    }
}

impl Registry {
    /// Register a fresh connection. The identity is immutable and unique: a
    /// collision rejects this registration attempt and changes nothing.
    pub fn register(&mut self, client: Client) -> (r: Result<Vec<Envelope>, CommunicationErrors>)
        requires
            old(self)@.wf(),
        ensures
            final(self)@.wf(),
            old(self)@.contains_id(client@.user_id) ==> (r matches Err(e) && e
                == CommunicationErrors::ChannelInitializationFailed) && final(self)@ == old(self)@,
            !old(self)@.contains_id(client@.user_id) ==> (r matches Ok(fails) && register_post(
                old(self)@,
                client@,
                final(self)@,
                envs_v(fails@),
            )),
    {
        match self.find_index(client.user_id) {
            Some(_) => Err(CommunicationErrors::ChannelInitializationFailed),
            None => {
                let ghost pre = self@;
                let mut record = client;
                record.status = Some(Status::WaitingForPartner);
                record.ping_status = PingStatus::NeverPinged;
                let id = record.user_id;
                let reply = Envelope::new(
                    EntityDetails::Server,
                    EntityDetails::Client(id),
                    None,
                    Command::ClientInfo(record.duplicate()),
                );
                let mut outbox: Vec<Envelope> = Vec::new();
                outbox.push(reply);
                let entry = RegistryEntry { client: record, outbox };
                proof {
                    assert(entry@.outbox =~= seq![
                        to_client_envelope(client@.user_id, CommandV::ClientInfo(
                            fresh_record(client@),
                        )),
                    ]) by {
                        assert(entry@.outbox =~= seq![entry.outbox@[0]@]);
                    }
                }
                self.entries.push(entry);
                proof {
                    assert(self@.entries =~= pre.entries.push(entry@));
                    assert(self@.wf());
                }
                let fails = self.broadcast_snapshot();
                Ok(fails)
            },
        }
    }

    /// Merge updated profile fields into the named record, then broadcast a
    /// fresh snapshot to every client.
    pub fn update_client_info(&mut self, client: Client) -> (fails: Vec<Envelope>)
        requires
            old(self)@.wf(),
        ensures
            final(self)@.wf(),
            client_info_post(old(self)@, client@, final(self)@, envs_v(fails@)),
    {
        let ghost pre = self@;
        let ghost client_v = client@;
        match self.find_index(client.user_id) {
            Some(i) => {
                let _merge = self.entries[i].client.replace_with_newer_values(client);
                proof {
                    assert(self@.entries =~= pre.entries.update(
                        i as int,
                        RegistryEntryV {
                            client: merged_client(pre.entries[i as int].client, client_v),
                            outbox: pre.entries[i as int].outbox,
                        },
                    ));
                    assert(self@.wf());
                }
            },
            None => {},
        }
        self.broadcast_snapshot()
    }

    /// Address one command to one client and queue it; a missing client or
    /// full queue yields the closed re-injection instead.
    pub fn send_command_to_client_by_uuid(&mut self, client: ClientId, command: Command) -> (fails:
        Vec<Envelope>)
        requires
            old(self)@.wf(),
        ensures
            final(self)@.wf(),
            send_post(old(self)@, client, command@, final(self)@, envs_v(fails@)),
    {
        let ghost pre = self@;
        match self.find_index(client) {
            Some(i) => {
                if self.entries[i].outbox.len() < self.capacity {
                    let env = Envelope::new(
                        EntityDetails::Server,
                        EntityDetails::Client(client),
                        None,
                        command,
                    );
                    self.entries[i].outbox.push(env);
                    proof {
                        assert(self@.entries[i as int].outbox =~= pre.entries[
                            i as int
                        ].outbox.push(env@));
                        assert(self@.entries =~= pre.entries.update(
                            i as int,
                            RegistryEntryV {
                                client: pre.entries[i as int].client,
                                outbox: pre.entries[i as int].outbox.push(
                                    to_client_envelope(client, command@),
                                ),
                            },
                        ));
                        assert(self@.wf());
                        assert(envs_v(Seq::<Envelope>::empty()) =~= Seq::<EnvelopeV>::empty());
                    }
                    Vec::new()
                } else {
                    let mut fails: Vec<Envelope> = Vec::new();
                    fails.push(
                        Envelope::new(
                            EntityDetails::Server,
                            EntityDetails::Server,
                            None,
                            Command::ClosedConnection(client),
                        ),
                    );
                    proof {
                        assert(envs_v(fails@) =~= seq![closed_reinjection(client)]);
                    }
                    fails
                }
            },
            None => {
                let mut fails: Vec<Envelope> = Vec::new();
                fails.push(
                    Envelope::new(
                        EntityDetails::Server,
                        EntityDetails::Server,
                        None,
                        Command::ClosedConnection(client),
                    ),
                );
                proof {
                    assert(envs_v(fails@) =~= seq![closed_reinjection(client)]);
                }
                fails
            },
        }
    }

    /// Answer a roster request: the current snapshot goes to the requesting
    /// client alone.
    pub fn ready_for_partner(&mut self, client: ClientId) -> (fails: Vec<Envelope>)
        requires
            old(self)@.wf(),
        ensures
            final(self)@.wf(),
            send_post(
                old(self)@,
                client,
                snapshot_command(roster_of(old(self)@.entries), old(self)@.current_round),
                final(self)@,
                envs_v(fails@),
            ),
    {
        let roster = self.collect_roster();
        let round = self.current_round;
        self.send_command_to_client_by_uuid(client, Command::OnlineClients(roster, round))
    }

    /// Record a pong: the named client's liveness becomes `Ponged(round)`.
    pub fn pong(&mut self, client: ClientId, round: u64)
        requires
            old(self)@.wf(),
        ensures
            final(self)@.wf(),
            pong_post(old(self)@, client, round, final(self)@),
    {
        let ghost pre = self@;
        match self.find_index(client) {
            Some(i) => {
                self.entries[i].client.ping_status = PingStatus::Ponged(round);
                proof {
                    assert(self@.entries =~= pre.entries.update(
                        i as int,
                        RegistryEntryV {
                            client: ClientV {
                                ping_status: PingStatus::Ponged(round),
                                ..pre.entries[i as int].client
                            },
                            outbox: pre.entries[i as int].outbox,
                        },
                    ));
                    assert(self@.wf());
                }
            },
            None => {},
        }
    }

    /// Remove the named connection: acknowledge on its own queue when there
    /// is room, hand the connection back with what was still pending, and
    /// broadcast a fresh snapshot to everyone left. A duplicate close for an
    /// identity already removed is a no-op.
    pub fn close_connection(&mut self, client: ClientId) -> (r: (
        Option<ReleasedConnection>,
        Vec<Envelope>,
    ))
        requires
            old(self)@.wf(),
        ensures
            final(self)@.wf(),
            close_post(
                old(self)@,
                client,
                final(self)@,
                (match r.0 {
                    Some(rc) => Some(rc@),
                    None => None,
                }),
                envs_v(r.1@),
            ),
    {
        let ghost pre = self@;
        match self.find_index(client) {
            None => {
                proof {
                    assert(envs_v(Seq::<Envelope>::empty()) =~= Seq::<EnvelopeV>::empty());
                }
                (None, Vec::new())
            },
            Some(i) => {
                let mut entry = self.entries.remove(i);
                proof {
                    assert(self@.entries =~= pre.entries.remove(i as int));
                    assert(forall|a: int, b: int|
                        0 <= a < b < self@.entries.len() ==> #[trigger] self@.entries[
                            a
                        ].client.user_id != #[trigger] self@.entries[b].client.user_id) by {
                        assert(forall|k: int|
                            0 <= k < self@.entries.len() ==> #[trigger] self@.entries[k] == (
                            if k < i as int {
                                pre.entries[k]
                            } else {
                                pre.entries[k + 1]
                            }));
                    }
                    assert(self@.wf());
                }
                if entry.outbox.len() < self.capacity {
                    let ack = Envelope::new(
                        EntityDetails::Server,
                        EntityDetails::Client(client),
                        None,
                        Command::AckClosedConnection(client),
                    );
                    let ghost outbox0 = envs_v(entry.outbox@);
                    entry.outbox.push(ack);
                    proof {
                        assert(envs_v(entry.outbox@) =~= outbox0.push(
                            to_client_envelope(client, CommandV::AckClosedConnection(client)),
                        ));
                    }
                }
                let fails = self.broadcast_snapshot();
                (Some(ReleasedConnection { client: entry.client, pending: entry.outbox }), fails)
            },
        }
    }

    /// Forward a relay envelope unmodified into its receiver's queue; the
    /// command is not interpreted. A missing receiver or full queue yields
    /// the closed re-injection instead.
    pub fn relay(&mut self, env: Envelope) -> (fails: Vec<Envelope>)
        requires
            old(self)@.wf(),
            env@.receiver.entity_detail is Client,
        ensures
            final(self)@.wf(),
            relay_post(old(self)@, env@, final(self)@, envs_v(fails@)),
    {
        let ghost pre = self@;
        let ghost env_v = env@;
        let id = match env.receiver.entity_detail {
            EntityDetails::Client(cid) => cid,
            EntityDetails::Server => {
                proof {
                    assert(false);
                }
                ClientId(0)
            },
        };
        match self.find_index(id) {
            Some(i) => {
                if self.entries[i].outbox.len() < self.capacity {
                    self.entries[i].outbox.push(env);
                    proof {
                        assert(self@.entries[i as int].outbox =~= pre.entries[
                            i as int
                        ].outbox.push(env_v));
                        assert(self@.entries =~= pre.entries.update(
                            i as int,
                            RegistryEntryV {
                                client: pre.entries[i as int].client,
                                outbox: pre.entries[i as int].outbox.push(env_v),
                            },
                        ));
                        assert(self@.wf());
                        assert(envs_v(Seq::<Envelope>::empty()) =~= Seq::<EnvelopeV>::empty());
                    }
                    Vec::new()
                } else {
                    let mut fails: Vec<Envelope> = Vec::new();
                    fails.push(
                        Envelope::new(
                            EntityDetails::Server,
                            EntityDetails::Server,
                            None,
                            Command::ClosedConnection(id),
                        ),
                    );
                    proof {
                        assert(envs_v(fails@) =~= seq![closed_reinjection(id)]);
                    }
                    fails
                }
            },
            None => {
                let mut fails: Vec<Envelope> = Vec::new();
                fails.push(
                    Envelope::new(
                        EntityDetails::Server,
                        EntityDetails::Server,
                        None,
                        Command::ClosedConnection(id),
                    ),
                );
                proof {
                    assert(envs_v(fails@) =~= seq![closed_reinjection(id)]);
                }
                fails
            },
        }
    }
}

// ---------------------------------------------------------------------------
// Heartbeat-driven liveness. Each round, the registry pings the clients
// that need it; detection of unresponsive clients is entirely driven by the
// shared round tick. A client flagged `Pinged` stays flagged; eviction is a
// design decision deliberately not taken here.
// ---------------------------------------------------------------------------

/// Whether a round tick sends a ping to this entry: always for a client
/// never pinged; for a ponged client only when its pong has grown older
/// than the re-ping threshold; never while a ping is already outstanding.
pub open spec fn wants_ping(e: RegistryEntryV, round: u64) -> bool {
    match e.client.ping_status {
        PingStatus::NeverPinged => true,
        PingStatus::Pinged(_) => false,
        PingStatus::Ponged(r) => r < round && round - r > PING_EVERY_ROUNDS,
    }
}

/// Queue the ping and move to `Pinged(round)` when there is room; a full
/// queue drops the ping and leaves the entry as it was.
pub open spec fn ping_if_room(e: RegistryEntryV, cap: nat, round: u64) -> RegistryEntryV {
    if e.outbox.len() < cap {
        RegistryEntryV {
            client: ClientV { ping_status: PingStatus::Pinged(round), ..e.client },
            outbox: e.outbox.push(
                to_client_envelope(e.client.user_id, CommandV::Ping(e.client.user_id, round)),
            ),
        }
    } else {
        e
    }
}

/// What one entry becomes under a heartbeat round.
pub open spec fn round_entry_post(e: RegistryEntryV, cap: nat, round: u64) -> RegistryEntryV {
    if wants_ping(e, round) {
        ping_if_room(e, cap, round)
    } else {
        e
    }
}

impl Registry {
    /// Apply one heartbeat round: remember the round and drive every
    /// entry's liveness transition, sending pings where they are due.
    pub fn handle_round(&mut self, round: u64)
        requires
            old(self)@.wf(),
        ensures
            final(self)@.wf(),
            final(self)@.capacity == old(self)@.capacity,
            final(self)@.current_round == round,
            final(self)@.entries == old(self)@.entries.map_values(
                |e: RegistryEntryV| round_entry_post(e, old(self)@.capacity, round),
            ),
    {
        self.current_round = round;
        let ghost entries0 = self@.entries;
        let ghost cap = self@.capacity;
        let mut i: usize = 0;
        while i < self.entries.len()
            invariant
                i <= self.entries@.len(),
                self.entries@.len() == entries0.len(),
                self@.capacity == cap,
                self.current_round == round,
                forall|j: int| i <= j < entries0.len() ==> self@.entries[j] == entries0[j],
                forall|j: int|
                    0 <= j < i ==> self@.entries[j] == round_entry_post(
                        #[trigger] entries0[j],
                        cap,
                        round,
                    ),
            decreases self.entries@.len() - i,
        {
            let status = self.entries[i].client.ping_status;
            let need = match status {
                PingStatus::NeverPinged => true,
                PingStatus::Pinged(_) => false,
                PingStatus::Ponged(r) => r < round && round - r > PING_EVERY_ROUNDS,
            };
            if need {
                if self.entries[i].outbox.len() < self.capacity {
                    let id = self.entries[i].client.user_id;
                    let env = Envelope::new(
                        EntityDetails::Server,
                        EntityDetails::Client(id),
                        None,
                        Command::Ping(id, round),
                    );
                    self.entries[i].outbox.push(env);
                    self.entries[i].client.ping_status = PingStatus::Pinged(round);
                    proof {
                        assert(self@.entries[i as int].outbox =~= entries0[i as int].outbox.push(
                            to_client_envelope(id, CommandV::Ping(id, round)),
                        ));
                        assert(self@.entries[i as int] == round_entry_post(
                            entries0[i as int],
                            cap,
                            round,
                        ));
                    }
                }
            }
            proof {
                assert(self@.entries[i as int] == round_entry_post(
                    entries0[i as int],
                    cap,
                    round,
                ));
            }
            i = i + 1;
        }
        proof {
            assert(self@.entries =~= entries0.map_values(
                |e: RegistryEntryV| round_entry_post(e, cap, round),
            ));
            assert forall|j: int| 0 <= j < self@.entries.len() implies #[trigger] self@.entries[
                j
            ].outbox.len() <= cap && self@.entries[j].client.user_id == entries0[
                j
            ].client.user_id by {
                assert(self@.entries[j] == round_entry_post(entries0[j], cap, round));
            }
            assert(self@.wf());
        }
    }
}

// ---------------------------------------------------------------------------
// The routing dispatch: one inbound envelope in, state change and effects
// out, in the priority order: server-addressed control message first, then
// relay, else the envelope is misrouted and dropped.
// ---------------------------------------------------------------------------

/// An envelope the router forwards to a client without interpreting it:
/// not addressed to the hub, with the hub as intermediary.
pub open spec fn valid_relay_shape(env: EnvelopeV) -> bool {
    &&& env.receiver.entity_type != EntityTypes::Server
    &&& (env.intermediary matches Some(e) && e.entity_type == EntityTypes::Server)
    &&& env.receiver.entity_detail is Client
}

/// The view of a routing result.
pub open spec fn result_view(r: Result<Effects, CommunicationErrors>) -> Result<
    EffectsV,
    CommunicationErrors,
> {
    match r {
        Ok(e) => Ok(e@),
        Err(x) => Err(x),
    }
}

/// The full routing relation: what one inbound envelope does to the
/// registry, and which effects it asks for, for every kind of envelope.
pub open spec fn handle_post(
    pre: RegistryV,
    env: EnvelopeV,
    has_registration: bool,
    post: RegistryV,
    r: Result<EffectsV, CommunicationErrors>,
) -> bool {
    if env.receiver.entity_type == EntityTypes::Server {
        match env.command {
            CommandV::ServerInitiated(c) => {
                if has_registration {
                    if pre.contains_id(c.user_id) {
                        &&& r matches Err(e) && e == CommunicationErrors::ChannelInitializationFailed
                        &&& post == pre
                    } else {
                        &&& r matches Ok(eff) && eff.released is None && register_post(
                            pre,
                            c,
                            post,
                            eff.reinjected,
                        )
                    }
                } else {
                    r matches Ok(eff) && empty_effects(eff) && post == pre
                }
            },
            CommandV::ClientInfo(c) => r matches Ok(eff) && eff.released is None
                && client_info_post(pre, c, post, eff.reinjected),
            CommandV::ReadyForPartner(c) => r matches Ok(eff) && eff.released is None && send_post(
                pre,
                c.user_id,
                snapshot_command(roster_of(pre.entries), pre.current_round),
                post,
                eff.reinjected,
            ),
            CommandV::Pong(id, round) => r matches Ok(eff) && empty_effects(eff) && pong_post(
                pre,
                id,
                round,
                post,
            ),
            CommandV::ClosedConnection(id) => r matches Ok(eff) && close_post(
                pre,
                id,
                post,
                eff.released,
                eff.reinjected,
            ),
            _ => r matches Ok(eff) && empty_effects(eff) && post == pre,
        }
    } else if valid_relay_shape(env) {
        r matches Ok(eff) && eff.released is None && relay_post(pre, env, post, eff.reinjected)
    } else {
        &&& r matches Err(e) && e == CommunicationErrors::DisallowedEntityType
        &&& post == pre
    }
}

impl Registry {
    /// Route one inbound envelope, in the priority order: a server-addressed
    /// command mutates presence state; a relay is forwarded unread; anything
    /// else is misrouted and dropped with an error, never a crash.
    pub fn handle_message(&mut self, env: Envelope, has_registration: bool) -> (r: Result<
        Effects,
        CommunicationErrors,
    >)
        requires
            old(self)@.wf(),
        ensures
            final(self)@.wf(),
            handle_post(old(self)@, env@, has_registration, final(self)@, result_view(r)),
            (r matches Ok(eff) ==> forall|k: int|
                0 <= k < eff@.reinjected.len() ==> is_closed_reinjection(
                    #[trigger] eff@.reinjected[k],
                )),
            (match r {
                Ok(eff) => env@.receiver.entity_type == EntityTypes::Server
                    && env@.command is ClosedConnection ==> {
                    ||| (final(self)@.entries.len() < old(self)@.entries.len()
                        && eff@.reinjected.len() <= final(self)@.entries.len())
                    ||| (final(self)@ == old(self)@ && empty_effects(eff@))
                },
                Err(_) => true,
            }),
    {
        let ghost pre = self@;
        if env.receiver.entity_type == EntityTypes::Server {
            match env.command {
                Command::ServerInitiated(client) => {
                    if has_registration {
                        let ghost cv = client@;
                        match self.register(client) {
                            Ok(fails) => {
                                proof {
                                    let record = fresh_record(cv);
                                    let reply = to_client_envelope(
                                        cv.user_id,
                                        CommandV::ClientInfo(record),
                                    );
                                    lemma_broadcast_fails_shape(
                                        pre.entries.push(
                                            RegistryEntryV { client: record, outbox: seq![reply] },
                                        ),
                                        pre.capacity,
                                    );
                                }
                                Ok(Effects { reinjected: fails, released: None })
                            },
                            Err(e) => Err(e),
                        }
                    } else {
                        let eff = Effects { reinjected: Vec::new(), released: None };
                        proof {
                            assert(envs_v(Seq::<Envelope>::empty()) =~= Seq::<EnvelopeV>::empty());
                        }
                        Ok(eff)
                    }
                },
                Command::ClientInfo(client) => {
                    let ghost cv = client@;
                    let fails = self.update_client_info(client);
                    proof {
                        let entries1 = if pre.contains_id(cv.user_id) {
                            let i = pre.index_of(cv.user_id);
                            pre.entries.update(
                                i,
                                RegistryEntryV {
                                    client: merged_client(pre.entries[i].client, cv),
                                    outbox: pre.entries[i].outbox,
                                },
                            )
                        } else {
                            pre.entries
                        };
                        lemma_broadcast_fails_shape(entries1, pre.capacity);
                    }
                    Ok(Effects { reinjected: fails, released: None })
                },
                Command::ReadyForPartner(client) => {
                    let fails = self.ready_for_partner(client.user_id);
                    Ok(Effects { reinjected: fails, released: None })
                },
                Command::Pong(id, round) => {
                    self.pong(id, round);
                    let eff = Effects { reinjected: Vec::new(), released: None };
                    proof {
                        assert(envs_v(Seq::<Envelope>::empty()) =~= Seq::<EnvelopeV>::empty());
                    }
                    Ok(eff)
                },
                Command::ClosedConnection(id) => {
                    let (released, fails) = self.close_connection(id);
                    proof {
                        if pre.contains_id(id) {
                            let i = pre.index_of(id);
                            lemma_broadcast_fails_shape(pre.entries.remove(i), pre.capacity);
                        } else {
                            assert(self@ == pre);
                        }
                    }
                    Ok(Effects { reinjected: fails, released })
                },
                _ => {
                    let eff = Effects { reinjected: Vec::new(), released: None };
                    proof {
                        assert(envs_v(Seq::<Envelope>::empty()) =~= Seq::<EnvelopeV>::empty());
                    }
                    Ok(eff)
                },
            }
        } else {
            let inter_is_server = match &env.intermediary {
                Some(e) => e.entity_type == EntityTypes::Server,
                None => false,
            };
            let recv_is_client = match env.receiver.entity_detail {
                EntityDetails::Client(_) => true,
                EntityDetails::Server => false,
            };
            if inter_is_server && recv_is_client {
                let fails = self.relay(env);
                Ok(Effects { reinjected: fails, released: None })
            } else {
                Err(CommunicationErrors::DisallowedEntityType)
            }
        }
    }
}

// ---------------------------------------------------------------------------
// The driver: after one inbound envelope, the synthesized closed
// re-injections are routed in turn until the inbound path is drained. Each
// productive re-injection removes a client, so this terminates.
// ---------------------------------------------------------------------------

/// Whether and why one inbound envelope is rejected outright: a colliding
/// registration, or an envelope the hub does not route.
pub open spec fn rejection(pre: RegistryV, env: EnvelopeV, has_registration: bool) -> Option<
    CommunicationErrors,
> {
    if env.receiver.entity_type == EntityTypes::Server {
        match env.command {
            CommandV::ServerInitiated(c) => if has_registration && pre.contains_id(c.user_id) {
                Some(CommunicationErrors::ChannelInitializationFailed)
            } else {
                None
            },
            _ => None,
        }
    } else if valid_relay_shape(env) {
        None
    } else {
        Some(CommunicationErrors::DisallowedEntityType)
    }
}

impl Registry {
    /// Route one inbound envelope, then route every closed re-injection it
    /// and its successors synthesize, until none is left. Returns the
    /// connections released along the way, in order.
    pub fn process_message(&mut self, env: Envelope, has_registration: bool) -> (r: Result<
        Vec<ReleasedConnection>,
        CommunicationErrors,
    >)
        requires
            old(self)@.wf(),
        ensures
            final(self)@.wf(),
            final(self)@.capacity == old(self)@.capacity,
            final(self)@.current_round == old(self)@.current_round,
            (r is Err <==> rejection(old(self)@, env@, has_registration) is Some),
            (r matches Err(e) ==> Some(e) == rejection(old(self)@, env@, has_registration)
                && final(self)@ == old(self)@),
            (r matches Ok(rcs) ==> exists|mid: RegistryV, effv: EffectsV|
                {
                    &&& #[trigger] handle_post(old(self)@, env@, has_registration, mid, Ok(effv))
                    &&& (effv.reinjected.len() == 0 ==> {
                        &&& final(self)@ == mid
                        &&& (match effv.released {
                            Some(rc) => rcs@.len() == 1 && rcs@[0]@ == rc,
                            None => rcs@.len() == 0,
                        })
                    })
                }),
    {
        let ghost pre = self@;
        let mut released: Vec<ReleasedConnection> = Vec::new();
        let eff0 = match self.handle_message(env, has_registration) {
            Ok(e) => e,
            Err(e) => {
                return Err(e);
            },
        };
        let ghost mid0 = self@;
        let ghost eff0v = eff0@;
        let mut queue = eff0.reinjected;
        match eff0.released {
            Some(rc) => {
                released.push(rc);
            },
            None => {},
        }
        let ghost released0 = released@;
        proof {
            assert forall|k: int| 0 <= k < queue@.len() implies is_closed_reinjection(
                #[trigger] queue@[k]@,
            ) by {
                assert(eff0v.reinjected[k] == queue@[k]@);
            }
        }
        let mut qi: usize = 0;
        while qi < queue.len()
            invariant
                self@.wf(),
                self@.capacity == pre.capacity,
                self@.current_round == pre.current_round,
                qi <= queue@.len(),
                forall|k: int|
                    qi <= k < queue@.len() ==> is_closed_reinjection(#[trigger] queue@[k]@),
                eff0v.reinjected.len() == 0 ==> (self@ == mid0 && queue@.len() == 0 && released@
                    == released0),
            decreases self.entries@.len() * self.entries@.len() + queue@.len() - qi,
        {
            let ghost n0 = self.entries@.len() as int;
            let item = queue[qi].duplicate();
            qi = qi + 1;
            proof {
                assert(is_closed_reinjection(item@));
                assert(item@.receiver.entity_type == EntityTypes::Server);
            }
            match self.handle_message(item, false) {
                Ok(eff) => {
                    let ghost effv = eff@;
                    let Effects { reinjected: mut newfails, released: rel } = eff;
                    match rel {
                        Some(rc) => {
                            released.push(rc);
                        },
                        None => {},
                    }
                    let ghost newfails0 = newfails@;
                    let ghost nf = newfails@.len() as int;
                    let ghost qlen0 = queue@.len() as int;
                    queue.append(&mut newfails);
                    proof {
                        assert forall|k: int| qi <= k < queue@.len() implies is_closed_reinjection(
                            #[trigger] queue@[k]@,
                        ) by {
                            if k >= qlen0 {
                                assert(queue@[k] == newfails0[k - qlen0]);
                                assert(effv.reinjected[k - qlen0] == newfails0[k - qlen0]@);
                            }
                        }
                        let n1 = self.entries@.len() as int;
                        assert((n1 < n0 && nf <= n1) || (n1 == n0 && nf == 0));
                        if n1 < n0 {
                            assert(n1 * n1 + n1 < n0 * n0) by (nonlinear_arith)
                                requires
                                    0 <= n1 < n0,
                            ;
                        }
                    }
                },
                Err(_) => {
                    proof {
                        assert(false);
                    }
                },
            }
        }
        proof {
            assert(handle_post(pre, env@, has_registration, mid0, Ok(eff0v)));
        }
        Ok(released)
    }
}

// ---------------------------------------------------------------------------
// The laws of the router, as proved facts about the routing relations.
// ---------------------------------------------------------------------------

/// Registering a connection adds exactly the new identity to the presence
/// set: afterwards an identity is registered precisely when it was before
/// or is the one just registered.
pub proof fn lemma_register_adds_exactly(
    pre: RegistryV,
    client: ClientV,
    post: RegistryV,
    fails: Seq<EnvelopeV>,
)
    requires
        pre.wf(),
        !pre.contains_id(client.user_id),
        register_post(pre, client, post, fails),
    ensures
        post.contains_id(client.user_id),
        forall|id: ClientId|
            #[trigger] post.contains_id(id) <==> (pre.contains_id(id) || id == client.user_id),
{
    let record = fresh_record(client);
    let reply = to_client_envelope(client.user_id, CommandV::ClientInfo(record));
    let entries1 = pre.entries.push(RegistryEntryV { client: record, outbox: seq![reply] });
    let n = pre.entries.len() as int;
    assert(post.entries.len() == entries1.len());
    assert forall|k: int| 0 <= k < entries1.len() implies #[trigger] post.entries[
        k
    ].client.user_id == entries1[k].client.user_id by {
        assert(post.entries[k] == bcast_entry_post(
            entries1[k],
            pre.capacity,
            pre.current_round,
            roster_of(entries1),
        ));
    }
    assert(post.entries[n].client.user_id == client.user_id);
    assert forall|id: ClientId| #[trigger] post.contains_id(id) implies (pre.contains_id(id) || id
        == client.user_id) by {
        let k = choose|k: int|
            0 <= k < post.entries.len() && #[trigger] post.entries[k].client.user_id == id;
        if k < n {
            assert(pre.entries[k].client.user_id == id);
        }
    }
    assert forall|id: ClientId| (pre.contains_id(id) || id == client.user_id) implies #[trigger]
    post.contains_id(id) by {
        if pre.contains_id(id) {
            let k = pre.index_of(id);
            assert(post.entries[k].client.user_id == id);
        } else {
            assert(post.entries[n].client.user_id == id);
        }
    }
}

/// Closing a registered connection removes exactly that identity from the
/// presence set: afterwards an identity is registered precisely when it was
/// before and is not the one closed.
pub proof fn lemma_close_removes_exactly(
    pre: RegistryV,
    id: ClientId,
    post: RegistryV,
    released: Option<ReleasedConnectionV>,
    fails: Seq<EnvelopeV>,
)
    requires
        pre.wf(),
        pre.contains_id(id),
        close_post(pre, id, post, released, fails),
    ensures
        !post.contains_id(id),
        forall|x: ClientId|
            #[trigger] post.contains_id(x) <==> (pre.contains_id(x) && x != id),
{
    let i = pre.index_of(id);
    let entries1 = pre.entries.remove(i);
    let n = pre.entries.len() as int;
    assert(post.entries.len() == entries1.len());
    assert forall|k: int| 0 <= k < entries1.len() implies #[trigger] post.entries[
        k
    ].client.user_id == entries1[k].client.user_id by {
        assert(post.entries[k] == bcast_entry_post(
            entries1[k],
            pre.capacity,
            pre.current_round,
            roster_of(entries1),
        ));
    }
    assert forall|k: int| 0 <= k < entries1.len() implies #[trigger] entries1[k].client.user_id
        == (if k < i {
        pre.entries[k].client.user_id
    } else {
        pre.entries[k + 1].client.user_id
    }) by {
        assert(entries1 =~= pre.entries.subrange(0, i) + pre.entries.subrange(i + 1, n));
    }
    assert forall|x: ClientId| #[trigger] post.contains_id(x) implies (pre.contains_id(x) && x
        != id) by {
        let k = choose|k: int|
            0 <= k < post.entries.len() && #[trigger] post.entries[k].client.user_id == x;
        if k < i {
            assert(pre.entries[k].client.user_id == x);
            assert(pre.entries[k].client.user_id != pre.entries[i].client.user_id);
        } else {
            assert(pre.entries[k + 1].client.user_id == x);
            assert(pre.entries[i].client.user_id != pre.entries[k + 1].client.user_id);
        }
    }
    assert forall|x: ClientId| (pre.contains_id(x) && x != id) implies #[trigger] post.contains_id(
        x,
    ) by {
        let k = pre.index_of(x);
        if k < i {
            assert(post.entries[k].client.user_id == x);
        } else {
            assert(k != i);
            assert(post.entries[k - 1].client.user_id == x);
        }
    }
}

/// A duplicate close for an identity already removed is a no-op: the state
/// is unchanged, nothing is released, and no broadcast or re-injection is
/// synthesized.
pub proof fn lemma_duplicate_close_is_noop(
    pre: RegistryV,
    id: ClientId,
    post: RegistryV,
    released: Option<ReleasedConnectionV>,
    fails: Seq<EnvelopeV>,
)
    requires
        !pre.contains_id(id),
        close_post(pre, id, post, released, fails),
    ensures
        post == pre,
        released is None,
        fails.len() == 0,
{
}

/// Routing correctness of the relay: when the receiver is registered and
/// its queue has room, exactly the receiver's queue receives exactly the
/// relayed envelope, unchanged and at the end, and no other entry is
/// touched; nothing is synthesized.
pub proof fn lemma_relay_routes_exactly(
    pre: RegistryV,
    env: EnvelopeV,
    post: RegistryV,
    fails: Seq<EnvelopeV>,
)
    requires
        pre.wf(),
        env.receiver.entity_detail is Client,
        pre.contains_id(env.receiver.entity_detail->0),
        pre.entries[pre.index_of(env.receiver.entity_detail->0)].outbox.len() < pre.capacity,
        relay_post(pre, env, post, fails),
    ensures
        post.entries[pre.index_of(env.receiver.entity_detail->0)].outbox == pre.entries[
            pre.index_of(env.receiver.entity_detail->0)
        ].outbox.push(env),
        forall|j: int|
            0 <= j < pre.entries.len() && j != pre.index_of(env.receiver.entity_detail->0)
                ==> #[trigger] post.entries[j] == pre.entries[j],
        fails.len() == 0,
{
}

/// The outbound half of the ordering guarantee: addressing a command to a
/// registered client never reorders or drops what is already queued for
/// anyone — every queue keeps its prefix, and at most the target's queue
/// grows, by one envelope at its end. (The inbound half — envelopes of one
/// bridge are processed in the order forwarded — is a property of the
/// inbound channel and its single consumer, outside this library.)
pub proof fn lemma_send_keeps_queue_order(
    pre: RegistryV,
    id: ClientId,
    command: CommandV,
    post: RegistryV,
    fails: Seq<EnvelopeV>,
)
    requires
        pre.wf(),
        send_post(pre, id, command, post, fails),
    ensures
        post.entries.len() == pre.entries.len(),
        forall|j: int, k: int|
            0 <= j < pre.entries.len() && 0 <= k < pre.entries[j].outbox.len()
                ==> #[trigger] post.entries[j].outbox[k] == pre.entries[j].outbox[k],
        forall|j: int|
            0 <= j < pre.entries.len() ==> pre.entries[j].outbox.len() <= #[trigger] post.entries[
                j
            ].outbox.len() <= pre.entries[j].outbox.len() + 1,
{
    if pre.contains_id(id) {
        let i = pre.index_of(id);
        assert(0 <= i < pre.entries.len() && pre.entries[i].client.user_id == id);
    }
}

/// A client that never answers stays flagged: an entry whose liveness is
/// `Pinged` is left exactly as it is by every further heartbeat round — it
/// is not pinged again and never silently becomes healthy.
pub proof fn lemma_unanswered_ping_stays_flagged(e: RegistryEntryV, cap: nat, round: u64)
    requires
        e.client.ping_status is Pinged,
    ensures
        round_entry_post(e, cap, round) == e,
{
}

} // verus!
