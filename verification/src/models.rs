//! The data model of the hub: identities, entity references, presence and
//! liveness state, the closed command set, and the envelope that carries a
//! command between entities.

use vstd::prelude::*;
use vstd::string::StringExecFns;

verus! {

/// The opaque 128-bit identity token minted for each accepted connection.
/// Immutable once assigned; the sole stable key for a client.
#[derive(Clone, Copy, PartialEq, Eq, Hash, Debug, Structural)]
pub struct ClientId(pub u128);

/// The two kinds of entity that can stand in an envelope's address fields.
#[derive(Clone, Copy, PartialEq, Eq, Hash, Debug, Structural)]
pub enum EntityTypes {
    Client,
    Server,
}

/// Which concrete participant an entity reference denotes: one registered
/// client by identity, or the hub itself. No raw address is carried.
#[derive(Clone, Copy, PartialEq, Eq, Hash, Debug, Structural)]
pub enum EntityDetails {
    Client(ClientId),
    Server,
}

/// An addressed participant: a kind tag together with the concrete detail.
#[derive(Clone, Copy, PartialEq, Eq, Hash, Debug, Structural)]
pub struct Entity {
    pub entity_type: EntityTypes,
    pub entity_detail: EntityDetails,
}

impl Entity {
    /// The kind that an addressing detail belongs to.
    pub open spec fn type_of(entity_detail: EntityDetails) -> EntityTypes {
        match entity_detail {
            EntityDetails::Client(_) => EntityTypes::Client,
            EntityDetails::Server => EntityTypes::Server,
        }
    }

    /// An entity is well formed when its kind tag agrees with its detail.
    pub open spec fn wf(self) -> bool {
        self.entity_type == Entity::type_of(self.entity_detail)
    }

    pub fn new(entity_detail: EntityDetails) -> (r: Entity)
        ensures
            r.entity_detail == entity_detail,
            r.wf(),
    {
        let entity_type = match entity_detail {
            EntityDetails::Client(_id) => EntityTypes::Client,
            EntityDetails::Server => EntityTypes::Server,
        };
        Entity { entity_type, entity_detail }
    }
}

/// Presence status of a registered client.
#[derive(Clone, Copy, PartialEq, Eq, Hash, Debug, Structural)]
pub enum Status {
    /// The first identity initiated the call, the second one answers it.
    InCall(ClientId, ClientId),
    WaitingForPartner,
    AnsweringQuestionAboutLastPartner,
}

/// Liveness state of a registered client, driven by heartbeat rounds.
#[derive(Clone, Copy, Eq, Hash, Debug)]
pub enum PingStatus {
    /// A ping was sent in the given round and no pong has answered it yet.
    Pinged(u64),
    /// The state every newly registered client starts in.
    NeverPinged,
    /// The client last answered a ping in the given round.
    Ponged(u64),
}

impl PartialEq for PingStatus {
    fn eq(&self, other: &PingStatus) -> bool {
        match self {
            PingStatus::Pinged(a) => match other {
                PingStatus::Pinged(c) => {
                    if a == c {
                        true
                    } else {
                        false
                    }
                }
                PingStatus::NeverPinged => false,
                PingStatus::Ponged(_d) => false,
            },
            PingStatus::NeverPinged => match other {
                PingStatus::Pinged(_c) => false,
                PingStatus::NeverPinged => true,
                PingStatus::Ponged(_d) => false,
            },
            PingStatus::Ponged(a) => match other {
                PingStatus::Pinged(_c) => false,
                PingStatus::NeverPinged => false,
                PingStatus::Ponged(d) => {
                    if a == d {
                        true
                    } else {
                        false
                    }
                }
            },
        }
    }
}

impl vstd::std_specs::cmp::PartialEqSpecImpl for PingStatus {
    open spec fn obeys_eq_spec() -> bool {
        true
    }

    open spec fn eq_spec(&self, other: &PingStatus) -> bool {
        *self == *other
    }
}

/// Mutable presence record of one registered client.
#[derive(Clone, PartialEq, Eq, Hash, Debug)]
pub struct Client {
    pub username: Option<String>,
    pub email: Option<String>,
    pub user_id: ClientId,
    /// Display form of the transport peer address, when one is known.
    pub current_socket_addr: Option<String>,
    pub status: Option<Status>,
    pub ping_status: PingStatus,
}

/// The mathematical value of an optional string.
pub open spec fn view_opt_string(o: Option<String>) -> Option<Seq<char>> {
    match o {
        Some(s) => Some(s@),
        None => None,
    }
}

/// Mathematical mirror of `Client`.
pub ghost struct ClientV {
    pub username: Option<Seq<char>>,
    pub email: Option<Seq<char>>,
    pub user_id: ClientId,
    pub current_socket_addr: Option<Seq<char>>,
    pub status: Option<Status>,
    pub ping_status: PingStatus,
}

impl View for Client {
    type V = ClientV;

    open spec fn view(&self) -> ClientV {
        ClientV {
            username: view_opt_string(self.username),
            email: view_opt_string(self.email),
            user_id: self.user_id,
            current_socket_addr: view_opt_string(self.current_socket_addr),
            status: self.status,
            ping_status: self.ping_status,
        }
    }
}

fn dup_opt_string(o: &Option<String>) -> (r: Option<String>)
    ensures
        r == *o,
{
    match o {
        Some(s) => Some(s.clone()),
        None => None,
    }
}

impl Client {
    /// A copy of this record, equal to the original.
    pub fn duplicate(&self) -> (r: Client)
        ensures
            r == *self,
    {
        Client {
            username: dup_opt_string(&self.username),
            email: dup_opt_string(&self.email),
            user_id: self.user_id,
            current_socket_addr: dup_opt_string(&self.current_socket_addr),
            status: self.status,
            ping_status: self.ping_status,
        }
    }

    /// Overwrite this record's profile fields and identity with the given ones.
    pub fn update(&mut self, client: Client)
        ensures
            final(self).username == client.username,
            final(self).user_id == client.user_id,
            final(self).email == client.email,
            final(self).current_socket_addr == old(self).current_socket_addr,
            final(self).status == old(self).status,
            final(self).ping_status == old(self).ping_status,
    {
        self.username = client.username;
        self.user_id = client.user_id;
        self.email = client.email;
    }

    /// A bare record carrying only an identity, mainly used for comparison.
    pub fn from_user_id(user_id: ClientId) -> (r: Client)
        ensures
            r.username is None,
            r.email is None,
            r.user_id == user_id,
            r.current_socket_addr is None,
            r.status is None,
            r.ping_status is NeverPinged,
    {
        Client {
            username: None,
            user_id,
            email: None,
            current_socket_addr: None,
            status: None,
            ping_status: PingStatus::NeverPinged,
        }
    }

    /// Merge the mutable profile fields of `new` into this record. The
    /// identity is immutable: a mismatch is an error and nothing changes.
    pub fn replace_with_newer_values(&mut self, new: Client) -> (r: Result<(), String>)
        ensures
            old(self).user_id == new.user_id ==> {
                &&& r is Ok
                &&& final(self).username == new.username
                &&& final(self).email == new.email
                &&& final(self).current_socket_addr == new.current_socket_addr
                &&& final(self).user_id == old(self).user_id
                &&& final(self).status == old(self).status
                &&& final(self).ping_status == old(self).ping_status
            },
            old(self).user_id != new.user_id ==> r is Err && *final(self) == *old(self),
    {
        if self.user_id == new.user_id {
            self.username = new.username;
            self.email = new.email;
            self.current_socket_addr = new.current_socket_addr;
            Ok(())
        } else {
            Err(String::from_str("the new client record did not match the old one"))
        }
    }
}

/// The closed set of message kinds carried by an envelope. The set is
/// versioned as one unit: adding a variant is a wire-format-breaking change.
#[derive(Clone, PartialEq, Eq, Debug)]
pub enum Command {
    /// Ask the hub to send out the current state of the online clients.
    BroadcastUpdate,
    /// The first identity initiated the call, the second one receives it.
    InCall(ClientId, ClientId),
    /// Either party asks for their call to be ended.
    EndCall(ClientId, ClientId),
    /// Push updated profile fields for one client record.
    ClientInfo(Client),
    /// Advisory error text; not a control-flow signal.
    Error(String),
    /// Sent by the hub when a connection registers; the client answers in turn.
    ServerInitiated(Client),
    /// The roster of online clients as of the given heartbeat round.
    OnlineClients(Vec<Client>, u64),
    /// Opaque session-description offer, relayed unread.
    SdpRequest(String),
    /// Opaque session-description answer, relayed unread.
    SdpResponse(String),
    /// The connection of the given identity is closed.
    ClosedConnection(ClientId),
    /// Acknowledges a `ClosedConnection` for the given identity.
    AckClosedConnection(ClientId),
    /// Opaque connectivity candidate, relayed unread.
    IceCandidate(String),
    /// Liveness probe for the given identity in the given round.
    Ping(ClientId, u64),
    /// Liveness answer of the given identity for the given round.
    Pong(ClientId, u64),
    /// The client with the record asks for the current roster.
    ReadyForPartner(Client),
}

/// Mathematical mirror of `Command`.
pub ghost enum CommandV {
    BroadcastUpdate,
    InCall(ClientId, ClientId),
    EndCall(ClientId, ClientId),
    ClientInfo(ClientV),
    Error(Seq<char>),
    ServerInitiated(ClientV),
    OnlineClients(Seq<ClientV>, u64),
    SdpRequest(Seq<char>),
    SdpResponse(Seq<char>),
    ClosedConnection(ClientId),
    AckClosedConnection(ClientId),
    IceCandidate(Seq<char>),
    Ping(ClientId, u64),
    Pong(ClientId, u64),
    ReadyForPartner(ClientV),
}

impl View for Command {
    type V = CommandV;

    open spec fn view(&self) -> CommandV {
        match self {
            Command::BroadcastUpdate => CommandV::BroadcastUpdate,
            Command::InCall(a, b) => CommandV::InCall(*a, *b),
            Command::EndCall(a, b) => CommandV::EndCall(*a, *b),
            Command::ClientInfo(c) => CommandV::ClientInfo(c@),
            Command::Error(s) => CommandV::Error(s@),
            Command::ServerInitiated(c) => CommandV::ServerInitiated(c@),
            Command::OnlineClients(cs, round) => CommandV::OnlineClients(
                cs@.map_values(|c: Client| c@),
                *round,
            ),
            Command::SdpRequest(s) => CommandV::SdpRequest(s@),
            Command::SdpResponse(s) => CommandV::SdpResponse(s@),
            Command::ClosedConnection(id) => CommandV::ClosedConnection(*id),
            Command::AckClosedConnection(id) => CommandV::AckClosedConnection(*id),
            Command::IceCandidate(s) => CommandV::IceCandidate(s@),
            Command::Ping(id, round) => CommandV::Ping(*id, *round),
            Command::Pong(id, round) => CommandV::Pong(*id, *round),
            Command::ReadyForPartner(c) => CommandV::ReadyForPartner(c@),
        }
    }
}

/// A fresh vector of copies of the given records, with the same
/// mathematical value.
pub fn dup_clients(v: &Vec<Client>) -> (r: Vec<Client>)
    ensures
        r@ == v@,
{
    let mut r: Vec<Client> = Vec::new();
    let mut i: usize = 0;
    while i < v.len()
        invariant
            i <= v.len(),
            r@ =~= v@.subrange(0, i as int),
        decreases v.len() - i,
    {
        r.push(v[i].duplicate());
        i = i + 1;
    }
    proof {
        assert(r@ =~= v@);
    }
    r
}

impl Command {
    /// A copy of this command, with the same mathematical value.
    pub fn duplicate(&self) -> (r: Command)
        ensures
            r@ == self@,
    {
        match self {
            Command::BroadcastUpdate => Command::BroadcastUpdate,
            Command::InCall(a, b) => Command::InCall(*a, *b),
            Command::EndCall(a, b) => Command::EndCall(*a, *b),
            Command::ClientInfo(c) => Command::ClientInfo(c.duplicate()),
            Command::Error(s) => Command::Error(s.clone()),
            Command::ServerInitiated(c) => Command::ServerInitiated(c.duplicate()),
            Command::OnlineClients(cs, round) => {
                let copies = dup_clients(cs);
                proof {
                    assert(copies@.map_values(|c: Client| c@) =~= cs@.map_values(
                        |c: Client| c@,
                    ));
                }
                Command::OnlineClients(copies, *round)
            },
            Command::SdpRequest(s) => Command::SdpRequest(s.clone()),
            Command::SdpResponse(s) => Command::SdpResponse(s.clone()),
            Command::ClosedConnection(id) => Command::ClosedConnection(*id),
            Command::AckClosedConnection(id) => Command::AckClosedConnection(*id),
            Command::IceCandidate(s) => Command::IceCandidate(s.clone()),
            Command::Ping(id, round) => Command::Ping(*id, *round),
            Command::Pong(id, round) => Command::Pong(*id, *round),
            Command::ReadyForPartner(c) => Command::ReadyForPartner(c.duplicate()),
        }
    }

    /// Which channel a command serves: the negotiation payloads set up the
    /// direct communication channel between two peers; everything else is
    /// hub signaling.
    pub fn channel_type(&self) -> (r: ChannelType)
        ensures
            r == (match self {
                Command::SdpRequest(_) | Command::SdpResponse(_) | Command::IceCandidate(_) =>
                    ChannelType::Communication,
                _ => ChannelType::Signaling,
            }),
    {
        match self {
            Command::SdpRequest(_) => ChannelType::Communication,
            Command::SdpResponse(_) => ChannelType::Communication,
            Command::IceCandidate(_) => ChannelType::Communication,
            _ => ChannelType::Signaling,
        }
    }
}

/// The unit of communication: an addressing header and a command.
/// Envelopes are immutable value objects.
#[derive(Clone, PartialEq, Eq, Debug)]
pub struct Envelope {
    pub sender: Entity,
    pub intermediary: Option<Entity>,
    pub receiver: Entity,
    pub command: Command,
}

/// Mathematical mirror of `Envelope`.
pub ghost struct EnvelopeV {
    pub sender: Entity,
    pub intermediary: Option<Entity>,
    pub receiver: Entity,
    pub command: CommandV,
}

impl View for Envelope {
    type V = EnvelopeV;

    open spec fn view(&self) -> EnvelopeV {
        EnvelopeV {
            sender: self.sender,
            intermediary: self.intermediary,
            receiver: self.receiver,
            command: self.command@,
        }
    }
}

impl EnvelopeV {
    /// All address fields carry a kind tag that agrees with their detail.
    pub open spec fn wf(self) -> bool {
        &&& self.sender.wf()
        &&& self.receiver.wf()
        &&& (self.intermediary matches Some(e) ==> e.wf())
    }
}

impl Envelope {
    /// All address fields carry a kind tag that agrees with their detail.
    pub open spec fn wf(self) -> bool {
        self@.wf()
    }

    pub fn new(
        sender: EntityDetails,
        receiver: EntityDetails,
        intermediary: Option<EntityDetails>,
        command: Command,
    ) -> (r: Envelope)
        ensures
            r.sender.entity_detail == sender,
            r.receiver.entity_detail == receiver,
            (match intermediary {
                Some(d) => r.intermediary matches Some(e) && e.entity_detail == d,
                None => r.intermediary is None,
            }),
            r.command == command,
            r.wf(),
    {
        Envelope {
            sender: Entity::new(sender),
            receiver: Entity::new(receiver),
            intermediary: match intermediary {
                Some(d) => Some(Entity::new(d)),
                None => None,
            },
            command,
        }
    }

    /// A copy of this envelope, with the same mathematical value.
    pub fn duplicate(&self) -> (r: Envelope)
        ensures
            r.sender == self.sender,
            r.intermediary == self.intermediary,
            r.receiver == self.receiver,
            r.command@ == self.command@,
            r@ == self@,
    {
        Envelope {
            sender: self.sender,
            intermediary: self.intermediary,
            receiver: self.receiver,
            command: self.command.duplicate(),
        }
    }

    /// The derived reply copy: sender and receiver swapped, all else kept.
    pub fn reversed(&self) -> (r: Envelope)
        ensures
            r.sender == self.receiver,
            r.receiver == self.sender,
            r.intermediary == self.intermediary,
            r.command@ == self.command@,
    {
        Envelope {
            sender: self.receiver,
            intermediary: self.intermediary,
            receiver: self.sender,
            command: self.command.duplicate(),
        }
    }
}

/// Which channel a message belongs to: hub signaling, or the direct
/// peer communication that the negotiation payloads set up.
#[derive(Clone, Copy, PartialEq, Eq, Hash, Debug, Structural)]
pub enum ChannelType {
    Signaling,
    Communication,
}

/// Errors of the communication core.
#[derive(Clone, Copy, PartialEq, Eq, Hash, Debug, Structural)]
pub enum CommunicationErrors {
    /// An envelope was addressed in a way the hub does not route.
    DisallowedEntityType,
    /// A registration attempt could not be accepted.
    ChannelInitializationFailed,
}

/// How often the participants of a process are pinged.
#[derive(Clone, Copy, PartialEq, Eq, Hash, Debug, Structural)]
pub enum PingTime {
    /// The participants are never pinged.
    Never,
    /// The participants are pinged every given number of seconds.
    Every(u32),
    /// The participants are pinged at a random interval between the two
    /// given bounds, in seconds.
    RandomBetween(u32, u32),
}

} // verus!
