//! Binary codec for `Envelope`: a deterministic, total encoding of
//! well-formed envelopes, and a decoder that rejects truncated or malformed
//! input with a typed error instead of crashing. Purely structural: no
//! semantic validation of payloads happens here.
//!
//! The wire layout is: little-endian integers; strings as a `u64` byte count
//! followed by UTF-8 bytes; options and enum variants as one tag byte
//! followed by the variant's fields; rosters as a `u64` element count
//! followed by the elements.

use vstd::prelude::*;
use vstd::bytes::*;
use vstd::utf8::*;
use vstd::slice::{slice_subrange, slice_to_vec};
use vstd::string::{StrSliceExecFns, StringSliceAdditionalSpecFns};
use crate::models::{
    Client, ClientId, ClientV, Command, CommandV, Entity, EntityDetails, Envelope, EnvelopeV,
    PingStatus, Status,
};

verus! {

/// Why a byte string was rejected by the decoder.
#[derive(Clone, Copy, PartialEq, Eq, Hash, Debug, Structural)]
pub enum DecodeError {
    /// The input ended before the envelope was complete.
    Truncated,
    /// A tag byte named no known variant.
    InvalidTag,
    /// A string field held bytes that are not valid UTF-8.
    InvalidUtf8,
    /// Bytes were left over after a complete envelope.
    TrailingBytes,
}

// ---------------------------------------------------------------------------
// The encoding, as a mathematical function over the view types.
// ---------------------------------------------------------------------------

pub open spec fn enc_u64(x: u64) -> Seq<u8> {
    spec_u64_to_le_bytes(x)
}

pub open spec fn enc_id(id: ClientId) -> Seq<u8> {
    spec_u128_to_le_bytes(id.0)
}

pub open spec fn enc_str(s: Seq<char>) -> Seq<u8> {
    enc_u64(encode_utf8(s).len() as u64) + encode_utf8(s)
}

pub open spec fn enc_opt_str(o: Option<Seq<char>>) -> Seq<u8> {
    match o {
        None => seq![0u8],
        Some(s) => seq![1u8] + enc_str(s),
    }
}

pub open spec fn enc_status(st: Status) -> Seq<u8> {
    match st {
        Status::InCall(a, b) => seq![0u8] + enc_id(a) + enc_id(b),
        Status::WaitingForPartner => seq![1u8],
        Status::AnsweringQuestionAboutLastPartner => seq![2u8],
    }
}

pub open spec fn enc_opt_status(o: Option<Status>) -> Seq<u8> {
    match o {
        None => seq![0u8],
        Some(st) => seq![1u8] + enc_status(st),
    }
}

pub open spec fn enc_ping(p: PingStatus) -> Seq<u8> {
    match p {
        PingStatus::Pinged(r) => seq![0u8] + enc_u64(r),
        PingStatus::NeverPinged => seq![1u8],
        PingStatus::Ponged(r) => seq![2u8] + enc_u64(r),
    }
}

pub open spec fn enc_client(c: ClientV) -> Seq<u8> {
    enc_opt_str(c.username) + enc_opt_str(c.email) + enc_id(c.user_id) + enc_opt_str(
        c.current_socket_addr,
    ) + enc_opt_status(c.status) + enc_ping(c.ping_status)
}

pub open spec fn enc_clients(s: Seq<ClientV>) -> Seq<u8>
    decreases s.len(),
{
    if s.len() == 0 {
        Seq::empty()
    } else {
        enc_client(s[0]) + enc_clients(s.drop_first())
    }
}

pub open spec fn enc_detail(d: EntityDetails) -> Seq<u8> {
    match d {
        EntityDetails::Client(id) => seq![0u8] + enc_id(id),
        EntityDetails::Server => seq![1u8],
    }
}

pub open spec fn enc_opt_entity(o: Option<Entity>) -> Seq<u8> {
    match o {
        None => seq![0u8],
        Some(e) => seq![1u8] + enc_detail(e.entity_detail),
    }
}

pub open spec fn enc_command(c: CommandV) -> Seq<u8> {
    match c {
        CommandV::BroadcastUpdate => seq![0u8],
        CommandV::InCall(a, b) => seq![1u8] + enc_id(a) + enc_id(b),
        CommandV::EndCall(a, b) => seq![2u8] + enc_id(a) + enc_id(b),
        CommandV::ClientInfo(cl) => seq![3u8] + enc_client(cl),
        CommandV::Error(s) => seq![4u8] + enc_str(s),
        CommandV::ServerInitiated(cl) => seq![5u8] + enc_client(cl),
        CommandV::OnlineClients(cs, round) => seq![6u8] + enc_u64(cs.len() as u64) + enc_clients(
            cs,
        ) + enc_u64(round),
        CommandV::SdpRequest(s) => seq![7u8] + enc_str(s),
        CommandV::SdpResponse(s) => seq![8u8] + enc_str(s),
        CommandV::ClosedConnection(id) => seq![9u8] + enc_id(id),
        CommandV::AckClosedConnection(id) => seq![10u8] + enc_id(id),
        CommandV::IceCandidate(s) => seq![11u8] + enc_str(s),
        CommandV::Ping(id, round) => seq![12u8] + enc_id(id) + enc_u64(round),
        CommandV::Pong(id, round) => seq![13u8] + enc_id(id) + enc_u64(round),
        CommandV::ReadyForPartner(cl) => seq![14u8] + enc_client(cl),
    }
}

/// The byte encoding of a whole envelope. The kind tags of the entities are
/// not written: they are derived from the details, and decoding rebuilds
/// them, so only well-formed envelopes come back out.
pub open spec fn spec_encode(v: EnvelopeV) -> Seq<u8> {
    enc_detail(v.sender.entity_detail) + enc_opt_entity(v.intermediary) + enc_detail(
        v.receiver.entity_detail,
    ) + enc_command(v.command)
}

// ---------------------------------------------------------------------------
// Size bounds: a string or roster whose length fits the u64 length field.
// Every envelope held in memory satisfies them; they matter only for the
// mathematical statement of the round trip.
// ---------------------------------------------------------------------------

pub open spec fn str_encodable(s: Seq<char>) -> bool {
    encode_utf8(s).len() <= u64::MAX
}

pub open spec fn opt_str_encodable(o: Option<Seq<char>>) -> bool {
    match o {
        None => true,
        Some(s) => str_encodable(s),
    }
}

pub open spec fn client_encodable(c: ClientV) -> bool {
    &&& opt_str_encodable(c.username)
    &&& opt_str_encodable(c.email)
    &&& opt_str_encodable(c.current_socket_addr)
}

pub open spec fn clients_encodable(s: Seq<ClientV>) -> bool {
    &&& s.len() <= u64::MAX
    &&& forall|i: int| 0 <= i < s.len() ==> client_encodable(#[trigger] s[i])
}

pub open spec fn command_encodable(c: CommandV) -> bool {
    match c {
        CommandV::ClientInfo(cl) => client_encodable(cl),
        CommandV::Error(s) => str_encodable(s),
        CommandV::ServerInitiated(cl) => client_encodable(cl),
        CommandV::OnlineClients(cs, _round) => clients_encodable(cs),
        CommandV::SdpRequest(s) => str_encodable(s),
        CommandV::SdpResponse(s) => str_encodable(s),
        CommandV::IceCandidate(s) => str_encodable(s),
        CommandV::ReadyForPartner(cl) => client_encodable(cl),
        _ => true,
    }
}

pub open spec fn encodable(v: EnvelopeV) -> bool {
    command_encodable(v.command)
}

// ---------------------------------------------------------------------------
// The decoding, as a mathematical function: each step yields the decoded
// value and the remaining bytes, or nothing when the input is rejected.
// ---------------------------------------------------------------------------

pub open spec fn dec_u8(b: Seq<u8>) -> Option<(u8, Seq<u8>)> {
    if b.len() >= 1 {
        Some((b[0], b.drop_first()))
    } else {
        None
    }
}

pub open spec fn dec_u64(b: Seq<u8>) -> Option<(u64, Seq<u8>)> {
    if b.len() >= 8 {
        Some((spec_u64_from_le_bytes(b.take(8)), b.skip(8)))
    } else {
        None
    }
}

pub open spec fn dec_id(b: Seq<u8>) -> Option<(ClientId, Seq<u8>)> {
    if b.len() >= 16 {
        Some((ClientId(spec_u128_from_le_bytes(b.take(16))), b.skip(16)))
    } else {
        None
    }
}

pub open spec fn dec_str(b: Seq<u8>) -> Option<(Seq<char>, Seq<u8>)> {
    match dec_u64(b) {
        None => None,
        Some((n, r)) => if r.len() >= n as int {
            if valid_utf8(r.take(n as int)) {
                Some((decode_utf8(r.take(n as int)), r.skip(n as int)))
            } else {
                None
            }
        } else {
            None
        },
    }
}

pub open spec fn dec_opt_str(b: Seq<u8>) -> Option<(Option<Seq<char>>, Seq<u8>)> {
    match dec_u8(b) {
        None => None,
        Some((tag, r)) => if tag == 0 {
            Some((None, r))
        } else if tag == 1 {
            match dec_str(r) {
                None => None,
                Some((s, r2)) => Some((Some(s), r2)),
            }
        } else {
            None
        },
    }
}

pub open spec fn dec_id_pair(b: Seq<u8>) -> Option<((ClientId, ClientId), Seq<u8>)> {
    match dec_id(b) {
        None => None,
        Some((a, r)) => match dec_id(r) {
            None => None,
            Some((c, r2)) => Some(((a, c), r2)),
        },
    }
}

pub open spec fn dec_status(b: Seq<u8>) -> Option<(Status, Seq<u8>)> {
    match dec_u8(b) {
        None => None,
        Some((tag, r)) => if tag == 0 {
            match dec_id_pair(r) {
                None => None,
                Some(((a, c), r2)) => Some((Status::InCall(a, c), r2)),
            }
        } else if tag == 1 {
            Some((Status::WaitingForPartner, r))
        } else if tag == 2 {
            Some((Status::AnsweringQuestionAboutLastPartner, r))
        } else {
            None
        },
    }
}

pub open spec fn dec_opt_status(b: Seq<u8>) -> Option<(Option<Status>, Seq<u8>)> {
    match dec_u8(b) {
        None => None,
        Some((tag, r)) => if tag == 0 {
            Some((None, r))
        } else if tag == 1 {
            match dec_status(r) {
                None => None,
                Some((st, r2)) => Some((Some(st), r2)),
            }
        } else {
            None
        },
    }
}

pub open spec fn dec_ping(b: Seq<u8>) -> Option<(PingStatus, Seq<u8>)> {
    match dec_u8(b) {
        None => None,
        Some((tag, r)) => if tag == 0 {
            match dec_u64(r) {
                None => None,
                Some((x, r2)) => Some((PingStatus::Pinged(x), r2)),
            }
        } else if tag == 1 {
            Some((PingStatus::NeverPinged, r))
        } else if tag == 2 {
            match dec_u64(r) {
                None => None,
                Some((x, r2)) => Some((PingStatus::Ponged(x), r2)),
            }
        } else {
            None
        },
    }
}

pub open spec fn dec_client(b: Seq<u8>) -> Option<(ClientV, Seq<u8>)> {
    match dec_opt_str(b) {
        None => None,
        Some((username, r1)) => match dec_opt_str(r1) {
            None => None,
            Some((email, r2)) => match dec_id(r2) {
                None => None,
                Some((user_id, r3)) => match dec_opt_str(r3) {
                    None => None,
                    Some((addr, r4)) => match dec_opt_status(r4) {
                        None => None,
                        Some((status, r5)) => match dec_ping(r5) {
                            None => None,
                            Some((ping, r6)) => Some(
                                (
                                    ClientV {
                                        username,
                                        email,
                                        user_id,
                                        current_socket_addr: addr,
                                        status,
                                        ping_status: ping,
                                    },
                                    r6,
                                ),
                            ),
                        },
                    },
                },
            },
        },
    }
}

pub open spec fn dec_clients_n(b: Seq<u8>, n: nat) -> Option<(Seq<ClientV>, Seq<u8>)>
    decreases n,
{
    if n == 0 {
        Some((Seq::empty(), b))
    } else {
        match dec_client(b) {
            None => None,
            Some((c, r)) => match dec_clients_n(r, (n - 1) as nat) {
                None => None,
                Some((cs, r2)) => Some((seq![c] + cs, r2)),
            },
        }
    }
}

pub open spec fn dec_detail(b: Seq<u8>) -> Option<(EntityDetails, Seq<u8>)> {
    match dec_u8(b) {
        None => None,
        Some((tag, r)) => if tag == 0 {
            match dec_id(r) {
                None => None,
                Some((id, r2)) => Some((EntityDetails::Client(id), r2)),
            }
        } else if tag == 1 {
            Some((EntityDetails::Server, r))
        } else {
            None
        },
    }
}

/// The entity an addressing detail decodes to: well formed by construction.
pub open spec fn entity_of(d: EntityDetails) -> Entity {
    Entity { entity_type: Entity::type_of(d), entity_detail: d }
}

pub open spec fn dec_opt_entity(b: Seq<u8>) -> Option<(Option<Entity>, Seq<u8>)> {
    match dec_u8(b) {
        None => None,
        Some((tag, r)) => if tag == 0 {
            Some((None, r))
        } else if tag == 1 {
            match dec_detail(r) {
                None => None,
                Some((d, r2)) => Some((Some(entity_of(d)), r2)),
            }
        } else {
            None
        },
    }
}

pub open spec fn dec_command(b: Seq<u8>) -> Option<(CommandV, Seq<u8>)> {
    match dec_u8(b) {
        None => None,
        Some((tag, r)) => if tag == 0 {
            Some((CommandV::BroadcastUpdate, r))
        } else if tag == 1 {
            match dec_id_pair(r) {
                None => None,
                Some(((a, c), r2)) => Some((CommandV::InCall(a, c), r2)),
            }
        } else if tag == 2 {
            match dec_id_pair(r) {
                None => None,
                Some(((a, c), r2)) => Some((CommandV::EndCall(a, c), r2)),
            }
        } else if tag == 3 {
            match dec_client(r) {
                None => None,
                Some((cl, r2)) => Some((CommandV::ClientInfo(cl), r2)),
            }
        } else if tag == 4 {
            match dec_str(r) {
                None => None,
                Some((s, r2)) => Some((CommandV::Error(s), r2)),
            }
        } else if tag == 5 {
            match dec_client(r) {
                None => None,
                Some((cl, r2)) => Some((CommandV::ServerInitiated(cl), r2)),
            }
        } else if tag == 6 {
            match dec_u64(r) {
                None => None,
                Some((n, r2)) => match dec_clients_n(r2, n as nat) {
                    None => None,
                    Some((cs, r3)) => match dec_u64(r3) {
                        None => None,
                        Some((round, r4)) => Some((CommandV::OnlineClients(cs, round), r4)),
                    },
                },
            }
        } else if tag == 7 {
            match dec_str(r) {
                None => None,
                Some((s, r2)) => Some((CommandV::SdpRequest(s), r2)),
            }
        } else if tag == 8 {
            match dec_str(r) {
                None => None,
                Some((s, r2)) => Some((CommandV::SdpResponse(s), r2)),
            }
        } else if tag == 9 {
            match dec_id(r) {
                None => None,
                Some((id, r2)) => Some((CommandV::ClosedConnection(id), r2)),
            }
        } else if tag == 10 {
            match dec_id(r) {
                None => None,
                Some((id, r2)) => Some((CommandV::AckClosedConnection(id), r2)),
            }
        } else if tag == 11 {
            match dec_str(r) {
                None => None,
                Some((s, r2)) => Some((CommandV::IceCandidate(s), r2)),
            }
        } else if tag == 12 {
            match dec_id(r) {
                None => None,
                Some((id, r2)) => match dec_u64(r2) {
                    None => None,
                    Some((round, r3)) => Some((CommandV::Ping(id, round), r3)),
                },
            }
        } else if tag == 13 {
            match dec_id(r) {
                None => None,
                Some((id, r2)) => match dec_u64(r2) {
                    None => None,
                    Some((round, r3)) => Some((CommandV::Pong(id, round), r3)),
                },
            }
        } else if tag == 14 {
            match dec_client(r) {
                None => None,
                Some((cl, r2)) => Some((CommandV::ReadyForPartner(cl), r2)),
            }
        } else {
            None
        },
    }
}

pub open spec fn dec_envelope(b: Seq<u8>) -> Option<(EnvelopeV, Seq<u8>)> {
    match dec_detail(b) {
        None => None,
        Some((sd, r1)) => match dec_opt_entity(r1) {
            None => None,
            Some((inter, r2)) => match dec_detail(r2) {
                None => None,
                Some((rd, r3)) => match dec_command(r3) {
                    None => None,
                    Some((cmd, r4)) => Some(
                        (
                            EnvelopeV {
                                sender: entity_of(sd),
                                intermediary: inter,
                                receiver: entity_of(rd),
                                command: cmd,
                            },
                            r4,
                        ),
                    ),
                },
            },
        },
    }
}

/// What a byte string means: the envelope it encodes, when it encodes
/// exactly one and nothing more.
pub open spec fn spec_decode(b: Seq<u8>) -> Option<EnvelopeV> {
    match dec_envelope(b) {
        None => None,
        Some((v, rest)) => if rest.len() == 0 {
            Some(v)
        } else {
            None
        },
    }
}

// ---------------------------------------------------------------------------
// The round trip: decoding an encoding yields the original value, one
// component at a time and then for the whole envelope.
// ---------------------------------------------------------------------------

proof fn lemma_dec_u8(t: u8, rest: Seq<u8>)
    ensures
        dec_u8(seq![t] + rest) == Some((t, rest)),
{
    let b = seq![t] + rest;
    assert(b[0] == t);
    assert(b.drop_first() =~= rest);
}

proof fn lemma_dec_u64(x: u64, rest: Seq<u8>)
    ensures
        dec_u64(enc_u64(x) + rest) == Some((x, rest)),
{
    lemma_auto_spec_u64_to_from_le_bytes();
    let b = enc_u64(x) + rest;
    assert(b.take(8) =~= enc_u64(x));
    assert(b.skip(8) =~= rest);
}

proof fn lemma_dec_id(id: ClientId, rest: Seq<u8>)
    ensures
        dec_id(enc_id(id) + rest) == Some((id, rest)),
{
    lemma_auto_spec_u128_to_from_le_bytes();
    let b = enc_id(id) + rest;
    assert(b.take(16) =~= enc_id(id));
    assert(b.skip(16) =~= rest);
}

proof fn lemma_dec_str(s: Seq<char>, rest: Seq<u8>)
    requires
        str_encodable(s),
    ensures
        dec_str(enc_str(s) + rest) == Some((s, rest)),
{
    let bytes = encode_utf8(s);
    let n: u64 = bytes.len() as u64;
    assert(n as int == bytes.len());
    assert(enc_str(s) + rest =~= enc_u64(n) + (bytes + rest));
    lemma_dec_u64(n, bytes + rest);
    let r = bytes + rest;
    assert(r.take(n as int) =~= bytes);
    assert(r.skip(n as int) =~= rest);
    encode_utf8_valid_utf8(s);
    encode_utf8_decode_utf8(s);
}

proof fn lemma_dec_opt_str(o: Option<Seq<char>>, rest: Seq<u8>)
    requires
        opt_str_encodable(o),
    ensures
        dec_opt_str(enc_opt_str(o) + rest) == Some((o, rest)),
{
    match o {
        None => {
            assert(enc_opt_str(o) + rest =~= seq![0u8] + rest);
            lemma_dec_u8(0u8, rest);
        },
        Some(s) => {
            assert(enc_opt_str(o) + rest =~= seq![1u8] + (enc_str(s) + rest));
            lemma_dec_u8(1u8, enc_str(s) + rest);
            lemma_dec_str(s, rest);
        },
    }
}

proof fn lemma_dec_id_pair(a: ClientId, c: ClientId, rest: Seq<u8>)
    ensures
        dec_id_pair(enc_id(a) + enc_id(c) + rest) == Some(((a, c), rest)),
{
    assert(enc_id(a) + enc_id(c) + rest =~= enc_id(a) + (enc_id(c) + rest));
    lemma_dec_id(a, enc_id(c) + rest);
    lemma_dec_id(c, rest);
}

proof fn lemma_dec_status(st: Status, rest: Seq<u8>)
    ensures
        dec_status(enc_status(st) + rest) == Some((st, rest)),
{
    match st {
        Status::InCall(a, c) => {
            assert(enc_status(st) + rest =~= seq![0u8] + (enc_id(a) + enc_id(c) + rest));
            lemma_dec_u8(0u8, enc_id(a) + enc_id(c) + rest);
            lemma_dec_id_pair(a, c, rest);
        },
        Status::WaitingForPartner => {
            assert(enc_status(st) + rest =~= seq![1u8] + rest);
            lemma_dec_u8(1u8, rest);
        },
        Status::AnsweringQuestionAboutLastPartner => {
            assert(enc_status(st) + rest =~= seq![2u8] + rest);
            lemma_dec_u8(2u8, rest);
        },
    }
}

proof fn lemma_dec_opt_status(o: Option<Status>, rest: Seq<u8>)
    ensures
        dec_opt_status(enc_opt_status(o) + rest) == Some((o, rest)),
{
    match o {
        None => {
            assert(enc_opt_status(o) + rest =~= seq![0u8] + rest);
            lemma_dec_u8(0u8, rest);
        },
        Some(st) => {
            assert(enc_opt_status(o) + rest =~= seq![1u8] + (enc_status(st) + rest));
            lemma_dec_u8(1u8, enc_status(st) + rest);
            lemma_dec_status(st, rest);
        },
    }
}

proof fn lemma_dec_ping(p: PingStatus, rest: Seq<u8>)
    ensures
        dec_ping(enc_ping(p) + rest) == Some((p, rest)),
{
    match p {
        PingStatus::Pinged(x) => {
            assert(enc_ping(p) + rest =~= seq![0u8] + (enc_u64(x) + rest));
            lemma_dec_u8(0u8, enc_u64(x) + rest);
            lemma_dec_u64(x, rest);
        },
        PingStatus::NeverPinged => {
            assert(enc_ping(p) + rest =~= seq![1u8] + rest);
            lemma_dec_u8(1u8, rest);
        },
        PingStatus::Ponged(x) => {
            assert(enc_ping(p) + rest =~= seq![2u8] + (enc_u64(x) + rest));
            lemma_dec_u8(2u8, enc_u64(x) + rest);
            lemma_dec_u64(x, rest);
        },
    }
}

#[verifier::rlimit(100)]
#[verifier::spinoff_prover]
proof fn lemma_dec_client(c: ClientV, rest: Seq<u8>)
    requires
        client_encodable(c),
    ensures
        dec_client(enc_client(c) + rest) == Some((c, rest)),
{
    let t5 = enc_ping(c.ping_status) + rest;
    let t4 = enc_opt_status(c.status) + t5;
    let t3 = enc_opt_str(c.current_socket_addr) + t4;
    let t2 = enc_id(c.user_id) + t3;
    let t1 = enc_opt_str(c.email) + t2;
    assert(enc_client(c) + rest =~= enc_opt_str(c.username) + t1);
    lemma_dec_opt_str(c.username, t1);
    lemma_dec_opt_str(c.email, t2);
    lemma_dec_id(c.user_id, t3);
    lemma_dec_opt_str(c.current_socket_addr, t4);
    lemma_dec_opt_status(c.status, t5);
    lemma_dec_ping(c.ping_status, rest);
}

#[verifier::rlimit(100)]
#[verifier::spinoff_prover]
proof fn lemma_dec_clients(s: Seq<ClientV>, rest: Seq<u8>)
    requires
        clients_encodable(s),
    ensures
        dec_clients_n(enc_clients(s) + rest, s.len()) == Some((s, rest)),
    decreases s.len(),
{
    if s.len() == 0 {
        assert(enc_clients(s) + rest =~= rest);
        assert(s =~= Seq::<ClientV>::empty());
    } else {
        let tail = s.drop_first();
        assert forall|i: int| 0 <= i < tail.len() implies client_encodable(#[trigger] tail[i]) by {
            assert(tail[i] == s[i + 1]);
        }
        assert(enc_clients(s) + rest =~= enc_client(s[0]) + (enc_clients(tail) + rest));
        lemma_dec_client(s[0], enc_clients(tail) + rest);
        lemma_dec_clients(tail, rest);
        assert(seq![s[0]] + tail =~= s);
    }
}

proof fn lemma_dec_detail(d: EntityDetails, rest: Seq<u8>)
    ensures
        dec_detail(enc_detail(d) + rest) == Some((d, rest)),
{
    match d {
        EntityDetails::Client(id) => {
            assert(enc_detail(d) + rest =~= seq![0u8] + (enc_id(id) + rest));
            lemma_dec_u8(0u8, enc_id(id) + rest);
            lemma_dec_id(id, rest);
        },
        EntityDetails::Server => {
            assert(enc_detail(d) + rest =~= seq![1u8] + rest);
            lemma_dec_u8(1u8, rest);
        },
    }
}

proof fn lemma_dec_opt_entity(o: Option<Entity>, rest: Seq<u8>)
    requires
        o matches Some(e) ==> e.wf(),
    ensures
        dec_opt_entity(enc_opt_entity(o) + rest) == Some((o, rest)),
{
    match o {
        None => {
            assert(enc_opt_entity(o) + rest =~= seq![0u8] + rest);
            lemma_dec_u8(0u8, rest);
        },
        Some(e) => {
            assert(enc_opt_entity(o) + rest =~= seq![1u8] + (enc_detail(e.entity_detail) + rest));
            lemma_dec_u8(1u8, enc_detail(e.entity_detail) + rest);
            lemma_dec_detail(e.entity_detail, rest);
            assert(entity_of(e.entity_detail) == e);
        },
    }
}

#[verifier::rlimit(100)]
#[verifier::spinoff_prover]
proof fn lemma_dec_command(c: CommandV, rest: Seq<u8>)
    requires
        command_encodable(c),
    ensures
        dec_command(enc_command(c) + rest) == Some((c, rest)),
{
    match c {
        CommandV::BroadcastUpdate => {
            assert(enc_command(c) + rest =~= seq![0u8] + rest);
            lemma_dec_u8(0u8, rest);
        },
        CommandV::InCall(a, b) => {
            assert(enc_command(c) + rest =~= seq![1u8] + (enc_id(a) + enc_id(b) + rest));
            lemma_dec_u8(1u8, enc_id(a) + enc_id(b) + rest);
            lemma_dec_id_pair(a, b, rest);
        },
        CommandV::EndCall(a, b) => {
            assert(enc_command(c) + rest =~= seq![2u8] + (enc_id(a) + enc_id(b) + rest));
            lemma_dec_u8(2u8, enc_id(a) + enc_id(b) + rest);
            lemma_dec_id_pair(a, b, rest);
        },
        CommandV::ClientInfo(cl) => {
            assert(enc_command(c) + rest =~= seq![3u8] + (enc_client(cl) + rest));
            lemma_dec_u8(3u8, enc_client(cl) + rest);
            lemma_dec_client(cl, rest);
        },
        CommandV::Error(s) => {
            assert(enc_command(c) + rest =~= seq![4u8] + (enc_str(s) + rest));
            lemma_dec_u8(4u8, enc_str(s) + rest);
            lemma_dec_str(s, rest);
        },
        CommandV::ServerInitiated(cl) => {
            assert(enc_command(c) + rest =~= seq![5u8] + (enc_client(cl) + rest));
            lemma_dec_u8(5u8, enc_client(cl) + rest);
            lemma_dec_client(cl, rest);
        },
        CommandV::OnlineClients(cs, round) => {
            let n: u64 = cs.len() as u64;
            let t3 = enc_u64(round) + rest;
            let t2 = enc_clients(cs) + t3;
            let t1 = enc_u64(n) + t2;
            assert(enc_command(c) + rest =~= seq![6u8] + t1);
            lemma_dec_u8(6u8, t1);
            lemma_dec_u64(n, t2);
            assert(n as nat == cs.len());
            lemma_dec_clients(cs, t3);
            lemma_dec_u64(round, rest);
        },
        CommandV::SdpRequest(s) => {
            assert(enc_command(c) + rest =~= seq![7u8] + (enc_str(s) + rest));
            lemma_dec_u8(7u8, enc_str(s) + rest);
            lemma_dec_str(s, rest);
        },
        CommandV::SdpResponse(s) => {
            assert(enc_command(c) + rest =~= seq![8u8] + (enc_str(s) + rest));
            lemma_dec_u8(8u8, enc_str(s) + rest);
            lemma_dec_str(s, rest);
        },
        CommandV::ClosedConnection(id) => {
            assert(enc_command(c) + rest =~= seq![9u8] + (enc_id(id) + rest));
            lemma_dec_u8(9u8, enc_id(id) + rest);
            lemma_dec_id(id, rest);
        },
        CommandV::AckClosedConnection(id) => {
            assert(enc_command(c) + rest =~= seq![10u8] + (enc_id(id) + rest));
            lemma_dec_u8(10u8, enc_id(id) + rest);
            lemma_dec_id(id, rest);
        },
        CommandV::IceCandidate(s) => {
            assert(enc_command(c) + rest =~= seq![11u8] + (enc_str(s) + rest));
            lemma_dec_u8(11u8, enc_str(s) + rest);
            lemma_dec_str(s, rest);
        },
        CommandV::Ping(id, round) => {
            assert(enc_command(c) + rest =~= seq![12u8] + (enc_id(id) + (enc_u64(round) + rest)));
            lemma_dec_u8(12u8, enc_id(id) + (enc_u64(round) + rest));
            lemma_dec_id(id, enc_u64(round) + rest);
            lemma_dec_u64(round, rest);
        },
        CommandV::Pong(id, round) => {
            assert(enc_command(c) + rest =~= seq![13u8] + (enc_id(id) + (enc_u64(round) + rest)));
            lemma_dec_u8(13u8, enc_id(id) + (enc_u64(round) + rest));
            lemma_dec_id(id, enc_u64(round) + rest);
            lemma_dec_u64(round, rest);
        },
        CommandV::ReadyForPartner(cl) => {
            assert(enc_command(c) + rest =~= seq![14u8] + (enc_client(cl) + rest));
            lemma_dec_u8(14u8, enc_client(cl) + rest);
            lemma_dec_client(cl, rest);
        },
    }
}

#[verifier::rlimit(100)]
#[verifier::spinoff_prover]
proof fn lemma_dec_envelope(v: EnvelopeV, rest: Seq<u8>)
    requires
        v.wf(),
        encodable(v),
    ensures
        dec_envelope(spec_encode(v) + rest) == Some((v, rest)),
{
    let t3 = enc_command(v.command) + rest;
    let t2 = enc_detail(v.receiver.entity_detail) + t3;
    let t1 = enc_opt_entity(v.intermediary) + t2;
    assert(spec_encode(v) + rest =~= enc_detail(v.sender.entity_detail) + t1);
    lemma_dec_detail(v.sender.entity_detail, t1);
    lemma_dec_opt_entity(v.intermediary, t2);
    lemma_dec_detail(v.receiver.entity_detail, t3);
    lemma_dec_command(v.command, rest);
    assert(entity_of(v.sender.entity_detail) == v.sender);
    assert(entity_of(v.receiver.entity_detail) == v.receiver);
}

/// The codec round trip: decoding the encoding of any well-formed envelope
/// whose lengths fit the wire's length fields gives back exactly that
/// envelope.
pub proof fn lemma_codec_round_trip(v: EnvelopeV)
    requires
        v.wf(),
        encodable(v),
    ensures
        spec_decode(spec_encode(v)) == Some(v),
{
    lemma_dec_envelope(v, Seq::empty());
    assert(spec_encode(v) + Seq::<u8>::empty() =~= spec_encode(v));
}

// ---------------------------------------------------------------------------
// The executable encoder: helpers append one component each to the output.
// ---------------------------------------------------------------------------

fn emit_u8(out: &mut Vec<u8>, x: u8)
    ensures
        final(out)@ == old(out)@ + seq![x],
{
    out.push(x);
    proof {
        assert(out@ =~= old(out)@ + seq![x]);
    }
}

fn emit_u64(out: &mut Vec<u8>, x: u64)
    ensures
        final(out)@ == old(out)@ + enc_u64(x),
{
    let mut b = u64_to_le_bytes(x);
    out.append(&mut b);
}

fn emit_id(out: &mut Vec<u8>, id: ClientId)
    ensures
        final(out)@ == old(out)@ + enc_id(id),
{
    let mut b = u128_to_le_bytes(id.0);
    out.append(&mut b);
}

fn emit_str(out: &mut Vec<u8>, s: &str)
    ensures
        final(out)@ == old(out)@ + enc_str(s@),
{
    let mut bytes = s.as_bytes_vec();
    emit_u64(out, bytes.len() as u64);
    out.append(&mut bytes);
    proof {
        assert(out@ =~= old(out)@ + enc_str(s@));
    }
}

fn emit_opt_str(out: &mut Vec<u8>, o: &Option<String>)
    ensures
        final(out)@ == old(out)@ + enc_opt_str(crate::models::view_opt_string(*o)),
{
    match o {
        None => {
            emit_u8(out, 0);
        },
        Some(s) => {
            emit_u8(out, 1);
            emit_str(out, s.as_str());
            proof {
                assert(out@ =~= old(out)@ + enc_opt_str(crate::models::view_opt_string(*o)));
            }
        },
    }
}

fn emit_status(out: &mut Vec<u8>, st: Status)
    ensures
        final(out)@ == old(out)@ + enc_status(st),
{
    match st {
        Status::InCall(a, b) => {
            emit_u8(out, 0);
            emit_id(out, a);
            emit_id(out, b);
            proof {
                assert(out@ =~= old(out)@ + enc_status(st));
            }
        },
        Status::WaitingForPartner => {
            emit_u8(out, 1);
        },
        Status::AnsweringQuestionAboutLastPartner => {
            emit_u8(out, 2);
        },
    }
}

fn emit_opt_status(out: &mut Vec<u8>, o: Option<Status>)
    ensures
        final(out)@ == old(out)@ + enc_opt_status(o),
{
    match o {
        None => {
            emit_u8(out, 0);
        },
        Some(st) => {
            emit_u8(out, 1);
            emit_status(out, st);
            proof {
                assert(out@ =~= old(out)@ + enc_opt_status(o));
            }
        },
    }
}

fn emit_ping(out: &mut Vec<u8>, p: PingStatus)
    ensures
        final(out)@ == old(out)@ + enc_ping(p),
{
    match p {
        PingStatus::Pinged(x) => {
            emit_u8(out, 0);
            emit_u64(out, x);
            proof {
                assert(out@ =~= old(out)@ + enc_ping(p));
            }
        },
        PingStatus::NeverPinged => {
            emit_u8(out, 1);
        },
        PingStatus::Ponged(x) => {
            emit_u8(out, 2);
            emit_u64(out, x);
            proof {
                assert(out@ =~= old(out)@ + enc_ping(p));
            }
        },
    }
}

fn emit_client(out: &mut Vec<u8>, c: &Client)
    ensures
        final(out)@ == old(out)@ + enc_client(c@),
{
    emit_opt_str(out, &c.username);
    emit_opt_str(out, &c.email);
    emit_id(out, c.user_id);
    emit_opt_str(out, &c.current_socket_addr);
    emit_opt_status(out, c.status);
    emit_ping(out, c.ping_status);
    proof {
        assert(out@ =~= old(out)@ + enc_client(c@));
    }
}

proof fn lemma_enc_clients_push(s: Seq<ClientV>, c: ClientV)
    ensures
        enc_clients(s.push(c)) == enc_clients(s) + enc_client(c),
    decreases s.len(),
{
    if s.len() == 0 {
        assert(s.push(c)[0] == c);
        assert(s.push(c).drop_first() =~= Seq::<ClientV>::empty());
        assert(enc_clients(Seq::<ClientV>::empty()) == Seq::<u8>::empty());
        assert(enc_clients(s.push(c)) =~= enc_clients(s) + enc_client(c));
    } else {
        assert(s.push(c)[0] == s[0]);
        assert(s.push(c).drop_first() =~= s.drop_first().push(c));
        lemma_enc_clients_push(s.drop_first(), c);
        assert(enc_clients(s.push(c)) =~= enc_clients(s) + enc_client(c));
    }
}

fn emit_clients(out: &mut Vec<u8>, cs: &Vec<Client>)
    ensures
        final(out)@ == old(out)@ + enc_clients(cs@.map_values(|c: Client| c@)),
{
    let ghost target = cs@.map_values(|c: Client| c@);
    let ghost out0 = out@;
    let mut i: usize = 0;
    while i < cs.len()
        invariant
            i <= cs.len(),
            target == cs@.map_values(|c: Client| c@),
            out@ == out0 + enc_clients(target.take(i as int)),
        decreases cs.len() - i,
    {
        proof {
            lemma_enc_clients_push(target.take(i as int), target[i as int]);
            assert(target.take(i as int + 1) =~= target.take(i as int).push(target[i as int]));
        }
        emit_client(out, &cs[i]);
        i = i + 1;
    }
    proof {
        assert(target.take(cs.len() as int) =~= target);
    }
}

fn emit_detail(out: &mut Vec<u8>, d: EntityDetails)
    ensures
        final(out)@ == old(out)@ + enc_detail(d),
{
    match d {
        EntityDetails::Client(id) => {
            emit_u8(out, 0);
            emit_id(out, id);
            proof {
                assert(out@ =~= old(out)@ + enc_detail(d));
            }
        },
        EntityDetails::Server => {
            emit_u8(out, 1);
        },
    }
}

fn emit_opt_entity(out: &mut Vec<u8>, o: Option<Entity>)
    ensures
        final(out)@ == old(out)@ + enc_opt_entity(o),
{
    match o {
        None => {
            emit_u8(out, 0);
        },
        Some(e) => {
            emit_u8(out, 1);
            emit_detail(out, e.entity_detail);
            proof {
                assert(out@ =~= old(out)@ + enc_opt_entity(o));
            }
        },
    }
}

#[verifier::rlimit(100)]
#[verifier::spinoff_prover]
fn emit_command(out: &mut Vec<u8>, c: &Command)
    ensures
        final(out)@ == old(out)@ + enc_command(c@),
{
    match c {
        Command::BroadcastUpdate => {
            emit_u8(out, 0);
        },
        Command::InCall(a, b) => {
            emit_u8(out, 1);
            emit_id(out, *a);
            emit_id(out, *b);
            proof {
                assert(out@ =~= old(out)@ + enc_command(c@));
            }
        },
        Command::EndCall(a, b) => {
            emit_u8(out, 2);
            emit_id(out, *a);
            emit_id(out, *b);
            proof {
                assert(out@ =~= old(out)@ + enc_command(c@));
            }
        },
        Command::ClientInfo(cl) => {
            emit_u8(out, 3);
            emit_client(out, cl);
            proof {
                assert(out@ =~= old(out)@ + enc_command(c@));
            }
        },
        Command::Error(s) => {
            emit_u8(out, 4);
            emit_str(out, s.as_str());
            proof {
                assert(out@ =~= old(out)@ + enc_command(c@));
            }
        },
        Command::ServerInitiated(cl) => {
            emit_u8(out, 5);
            emit_client(out, cl);
            proof {
                assert(out@ =~= old(out)@ + enc_command(c@));
            }
        },
        Command::OnlineClients(cs, round) => {
            emit_u8(out, 6);
            emit_u64(out, cs.len() as u64);
            emit_clients(out, cs);
            emit_u64(out, *round);
            proof {
                assert(cs@.map_values(|cl: Client| cl@).len() == cs@.len());
                assert(out@ =~= old(out)@ + enc_command(c@));
            }
        },
        Command::SdpRequest(s) => {
            emit_u8(out, 7);
            emit_str(out, s.as_str());
            proof {
                assert(out@ =~= old(out)@ + enc_command(c@));
            }
        },
        Command::SdpResponse(s) => {
            emit_u8(out, 8);
            emit_str(out, s.as_str());
            proof {
                assert(out@ =~= old(out)@ + enc_command(c@));
            }
        },
        Command::ClosedConnection(id) => {
            emit_u8(out, 9);
            emit_id(out, *id);
            proof {
                assert(out@ =~= old(out)@ + enc_command(c@));
            }
        },
        Command::AckClosedConnection(id) => {
            emit_u8(out, 10);
            emit_id(out, *id);
            proof {
                assert(out@ =~= old(out)@ + enc_command(c@));
            }
        },
        Command::IceCandidate(s) => {
            emit_u8(out, 11);
            emit_str(out, s.as_str());
            proof {
                assert(out@ =~= old(out)@ + enc_command(c@));
            }
        },
        Command::Ping(id, round) => {
            emit_u8(out, 12);
            emit_id(out, *id);
            emit_u64(out, *round);
            proof {
                assert(out@ =~= old(out)@ + enc_command(c@));
            }
        },
        Command::Pong(id, round) => {
            emit_u8(out, 13);
            emit_id(out, *id);
            emit_u64(out, *round);
            proof {
                assert(out@ =~= old(out)@ + enc_command(c@));
            }
        },
        Command::ReadyForPartner(cl) => {
            emit_u8(out, 14);
            emit_client(out, cl);
            proof {
                assert(out@ =~= old(out)@ + enc_command(c@));
            }
        },
    }
}

// ---------------------------------------------------------------------------
// The executable decoder: each parser consumes one component at a byte
// position and agrees exactly with the mathematical decoder on the
// corresponding suffix.
// ---------------------------------------------------------------------------

/// Relies on String::from_utf8: on valid UTF-8 input it returns the string
/// whose byte encoding is exactly the input, and on invalid input an error.
#[verifier::external_body]
fn string_from_utf8(bytes: Vec<u8>) -> (r: Option<String>)
    ensures
        r is Some <==> valid_utf8(bytes@),
        r matches Some(s) ==> encode_utf8(s@) == bytes@,
{
    String::from_utf8(bytes).ok()
}

fn p_u8(b: &[u8], pos: usize) -> (r: Result<(u8, usize), DecodeError>)
    requires
        pos <= b@.len(),
    ensures
        (r matches Ok((x, p2)) ==> pos <= p2 <= b@.len() && dec_u8(b@.skip(pos as int)) == Some(
            (x, b@.skip(p2 as int)),
        )),
        r is Err ==> dec_u8(b@.skip(pos as int)) is None,
{
    if pos < b.len() {
        let x = *vstd::slice::slice_index_get(b, pos);
        proof {
            assert(b@.skip(pos as int)[0] == b@[pos as int]);
            assert(b@.skip(pos as int).drop_first() =~= b@.skip(pos as int + 1));
        }
        Ok((x, pos + 1))
    } else {
        Err(DecodeError::Truncated)
    }
}

fn p_u64(b: &[u8], pos: usize) -> (r: Result<(u64, usize), DecodeError>)
    requires
        pos <= b@.len(),
    ensures
        (r matches Ok((x, p2)) ==> pos <= p2 <= b@.len() && dec_u64(b@.skip(pos as int)) == Some(
            (x, b@.skip(p2 as int)),
        )),
        r is Err ==> dec_u64(b@.skip(pos as int)) is None,
{
    if b.len() - pos >= 8 {
        let s = slice_subrange(b, pos, pos + 8);
        let x = u64_from_le_bytes(s);
        proof {
            assert(b@.skip(pos as int).take(8) =~= b@.subrange(pos as int, pos as int + 8));
            assert(b@.skip(pos as int).skip(8) =~= b@.skip(pos as int + 8));
        }
        Ok((x, pos + 8))
    } else {
        Err(DecodeError::Truncated)
    }
}

fn p_id(b: &[u8], pos: usize) -> (r: Result<(ClientId, usize), DecodeError>)
    requires
        pos <= b@.len(),
    ensures
        (r matches Ok((x, p2)) ==> pos <= p2 <= b@.len() && dec_id(b@.skip(pos as int)) == Some(
            (x, b@.skip(p2 as int)),
        )),
        r is Err ==> dec_id(b@.skip(pos as int)) is None,
{
    if b.len() - pos >= 16 {
        let s = slice_subrange(b, pos, pos + 16);
        let x = u128_from_le_bytes(s);
        proof {
            assert(b@.skip(pos as int).take(16) =~= b@.subrange(pos as int, pos as int + 16));
            assert(b@.skip(pos as int).skip(16) =~= b@.skip(pos as int + 16));
        }
        Ok((ClientId(x), pos + 16))
    } else {
        Err(DecodeError::Truncated)
    }
}

fn p_str(b: &[u8], pos: usize) -> (r: Result<(String, usize), DecodeError>)
    requires
        pos <= b@.len(),
    ensures
        (r matches Ok((s, p2)) ==> pos <= p2 <= b@.len() && dec_str(b@.skip(pos as int)) == Some(
            (s@, b@.skip(p2 as int)),
        )),
        r is Err ==> dec_str(b@.skip(pos as int)) is None,
{
    let (n, p1) = match p_u64(b, pos) {
        Ok(v) => v,
        Err(e) => {
            return Err(e);
        },
    };
    let avail = b.len() - p1;
    if n > avail as u64 {
        return Err(DecodeError::Truncated);
    }
    let n_us = n as usize;
    let bytes = slice_to_vec(slice_subrange(b, p1, p1 + n_us));
    proof {
        assert(bytes@ =~= b@.skip(p1 as int).take(n as int));
        assert(b@.skip(p1 as int).skip(n as int) =~= b@.skip(p1 as int + n as int));
    }
    match string_from_utf8(bytes) {
        Some(s) => {
            proof {
                encode_utf8_decode_utf8(s@);
            }
            Ok((s, p1 + n_us))
        },
        None => Err(DecodeError::InvalidUtf8),
    }
}

fn p_opt_str(b: &[u8], pos: usize) -> (r: Result<(Option<String>, usize), DecodeError>)
    requires
        pos <= b@.len(),
    ensures
        (r matches Ok((o, p2)) ==> pos <= p2 <= b@.len() && dec_opt_str(b@.skip(pos as int))
            == Some((crate::models::view_opt_string(o), b@.skip(p2 as int)))),
        r is Err ==> dec_opt_str(b@.skip(pos as int)) is None,
{
    let (tag, p1) = match p_u8(b, pos) {
        Ok(v) => v,
        Err(e) => {
            return Err(e);
        },
    };
    if tag == 0 {
        Ok((None, p1))
    } else if tag == 1 {
        match p_str(b, p1) {
            Ok((s, p2)) => Ok((Some(s), p2)),
            Err(e) => Err(e),
        }
    } else {
        Err(DecodeError::InvalidTag)
    }
}

fn p_id_pair(b: &[u8], pos: usize) -> (r: Result<((ClientId, ClientId), usize), DecodeError>)
    requires
        pos <= b@.len(),
    ensures
        (r matches Ok((pair, p2)) ==> pos <= p2 <= b@.len() && dec_id_pair(b@.skip(pos as int))
            == Some((pair, b@.skip(p2 as int)))),
        r is Err ==> dec_id_pair(b@.skip(pos as int)) is None,
{
    let (a, p1) = match p_id(b, pos) {
        Ok(v) => v,
        Err(e) => {
            return Err(e);
        },
    };
    let (c, p2) = match p_id(b, p1) {
        Ok(v) => v,
        Err(e) => {
            return Err(e);
        },
    };
    Ok(((a, c), p2))
}

fn p_status(b: &[u8], pos: usize) -> (r: Result<(Status, usize), DecodeError>)
    requires
        pos <= b@.len(),
    ensures
        (r matches Ok((st, p2)) ==> pos <= p2 <= b@.len() && dec_status(b@.skip(pos as int))
            == Some((st, b@.skip(p2 as int)))),
        r is Err ==> dec_status(b@.skip(pos as int)) is None,
{
    let (tag, p1) = match p_u8(b, pos) {
        Ok(v) => v,
        Err(e) => {
            return Err(e);
        },
    };
    if tag == 0 {
        match p_id_pair(b, p1) {
            Ok(((a, c), p2)) => Ok((Status::InCall(a, c), p2)),
            Err(e) => Err(e),
        }
    } else if tag == 1 {
        Ok((Status::WaitingForPartner, p1))
    } else if tag == 2 {
        Ok((Status::AnsweringQuestionAboutLastPartner, p1))
    } else {
        Err(DecodeError::InvalidTag)
    }
}

fn p_opt_status(b: &[u8], pos: usize) -> (r: Result<(Option<Status>, usize), DecodeError>)
    requires
        pos <= b@.len(),
    ensures
        (r matches Ok((o, p2)) ==> pos <= p2 <= b@.len() && dec_opt_status(b@.skip(pos as int))
            == Some((o, b@.skip(p2 as int)))),
        r is Err ==> dec_opt_status(b@.skip(pos as int)) is None,
{
    let (tag, p1) = match p_u8(b, pos) {
        Ok(v) => v,
        Err(e) => {
            return Err(e);
        },
    };
    if tag == 0 {
        Ok((None, p1))
    } else if tag == 1 {
        match p_status(b, p1) {
            Ok((st, p2)) => Ok((Some(st), p2)),
            Err(e) => Err(e),
        }
    } else {
        Err(DecodeError::InvalidTag)
    }
}

fn p_ping(b: &[u8], pos: usize) -> (r: Result<(PingStatus, usize), DecodeError>)
    requires
        pos <= b@.len(),
    ensures
        (r matches Ok((p, p2)) ==> pos <= p2 <= b@.len() && dec_ping(b@.skip(pos as int)) == Some(
            (p, b@.skip(p2 as int)),
        )),
        r is Err ==> dec_ping(b@.skip(pos as int)) is None,
{
    let (tag, p1) = match p_u8(b, pos) {
        Ok(v) => v,
        Err(e) => {
            return Err(e);
        },
    };
    if tag == 0 {
        match p_u64(b, p1) {
            Ok((x, p2)) => Ok((PingStatus::Pinged(x), p2)),
            Err(e) => Err(e),
        }
    } else if tag == 1 {
        Ok((PingStatus::NeverPinged, p1))
    } else if tag == 2 {
        match p_u64(b, p1) {
            Ok((x, p2)) => Ok((PingStatus::Ponged(x), p2)),
            Err(e) => Err(e),
        }
    } else {
        Err(DecodeError::InvalidTag)
    }
}

#[verifier::rlimit(100)]
#[verifier::spinoff_prover]
fn p_client(b: &[u8], pos: usize) -> (r: Result<(Client, usize), DecodeError>)
    requires
        pos <= b@.len(),
    ensures
        (r matches Ok((c, p2)) ==> pos <= p2 <= b@.len() && dec_client(b@.skip(pos as int))
            == Some((c@, b@.skip(p2 as int)))),
        r is Err ==> dec_client(b@.skip(pos as int)) is None,
{
    let (username, p1) = match p_opt_str(b, pos) {
        Ok(v) => v,
        Err(e) => {
            return Err(e);
        },
    };
    let (email, p2) = match p_opt_str(b, p1) {
        Ok(v) => v,
        Err(e) => {
            return Err(e);
        },
    };
    let (user_id, p3) = match p_id(b, p2) {
        Ok(v) => v,
        Err(e) => {
            return Err(e);
        },
    };
    let (addr, p4) = match p_opt_str(b, p3) {
        Ok(v) => v,
        Err(e) => {
            return Err(e);
        },
    };
    let (status, p5) = match p_opt_status(b, p4) {
        Ok(v) => v,
        Err(e) => {
            return Err(e);
        },
    };
    let (ping_status, p6) = match p_ping(b, p5) {
        Ok(v) => v,
        Err(e) => {
            return Err(e);
        },
    };
    Ok(
        (
            Client {
                username,
                email,
                user_id,
                current_socket_addr: addr,
                status,
                ping_status,
            },
            p6,
        ),
    )
}

#[verifier::rlimit(100)]
#[verifier::spinoff_prover]
fn p_clients(b: &[u8], pos: usize, n: u64) -> (r: Result<(Vec<Client>, usize), DecodeError>)
    requires
        pos <= b@.len(),
    ensures
        (r matches Ok((cs, p2)) ==> pos <= p2 <= b@.len() && dec_clients_n(
            b@.skip(pos as int),
            n as nat,
        ) == Some((cs@.map_values(|c: Client| c@), b@.skip(p2 as int)))),
        r is Err ==> dec_clients_n(b@.skip(pos as int), n as nat) is None,
{
    let mut cs: Vec<Client> = Vec::new();
    let mut p: usize = pos;
    let mut i: u64 = 0;
    while i < n
        invariant
            i <= n,
            pos <= p <= b@.len(),
            (match dec_clients_n(b@.skip(p as int), (n - i) as nat) {
                Some((tail, rem)) => dec_clients_n(b@.skip(pos as int), n as nat) == Some(
                    (cs@.map_values(|c: Client| c@) + tail, rem),
                ),
                None => dec_clients_n(b@.skip(pos as int), n as nat) is None,
            }),
        decreases n - i,
    {
        let ghost old_cs_v = cs@.map_values(|c: Client| c@);
        match p_client(b, p) {
            Ok((c, p2)) => {
                proof {
                    let tail_opt = dec_clients_n(b@.skip(p2 as int), (n - i - 1) as nat);
                    if tail_opt is Some {
                        let (tail2, rem) = tail_opt->0;
                        assert(old_cs_v.push(c@) + tail2 =~= old_cs_v + (seq![c@] + tail2));
                    }
                }
                cs.push(c);
                proof {
                    assert(cs@.map_values(|cl: Client| cl@) =~= old_cs_v.push(c@));
                }
                p = p2;
                i = i + 1;
            },
            Err(e) => {
                return Err(e);
            },
        }
    }
    proof {
        assert(cs@.map_values(|c: Client| c@) + Seq::<ClientV>::empty() =~= cs@.map_values(
            |c: Client| c@,
        ));
    }
    Ok((cs, p))
}

fn p_detail(b: &[u8], pos: usize) -> (r: Result<(EntityDetails, usize), DecodeError>)
    requires
        pos <= b@.len(),
    ensures
        (r matches Ok((d, p2)) ==> pos <= p2 <= b@.len() && dec_detail(b@.skip(pos as int))
            == Some((d, b@.skip(p2 as int)))),
        r is Err ==> dec_detail(b@.skip(pos as int)) is None,
{
    let (tag, p1) = match p_u8(b, pos) {
        Ok(v) => v,
        Err(e) => {
            return Err(e);
        },
    };
    if tag == 0 {
        match p_id(b, p1) {
            Ok((id, p2)) => Ok((EntityDetails::Client(id), p2)),
            Err(e) => Err(e),
        }
    } else if tag == 1 {
        Ok((EntityDetails::Server, p1))
    } else {
        Err(DecodeError::InvalidTag)
    }
}

fn p_opt_entity(b: &[u8], pos: usize) -> (r: Result<(Option<Entity>, usize), DecodeError>)
    requires
        pos <= b@.len(),
    ensures
        (r matches Ok((o, p2)) ==> pos <= p2 <= b@.len() && dec_opt_entity(b@.skip(pos as int))
            == Some((o, b@.skip(p2 as int))) && (o matches Some(e) ==> e.wf())),
        r is Err ==> dec_opt_entity(b@.skip(pos as int)) is None,
{
    let (tag, p1) = match p_u8(b, pos) {
        Ok(v) => v,
        Err(e) => {
            return Err(e);
        },
    };
    if tag == 0 {
        Ok((None, p1))
    } else if tag == 1 {
        match p_detail(b, p1) {
            Ok((d, p2)) => {
                let e = Entity::new(d);
                proof {
                    assert(e == entity_of(d));
                }
                Ok((Some(e), p2))
            },
            Err(e) => Err(e),
        }
    } else {
        Err(DecodeError::InvalidTag)
    }
}

#[verifier::rlimit(100)]
#[verifier::spinoff_prover]
fn p_command(b: &[u8], pos: usize) -> (r: Result<(Command, usize), DecodeError>)
    requires
        pos <= b@.len(),
    ensures
        (r matches Ok((c, p2)) ==> pos <= p2 <= b@.len() && dec_command(b@.skip(pos as int))
            == Some((c@, b@.skip(p2 as int)))),
        r is Err ==> dec_command(b@.skip(pos as int)) is None,
{
    let (tag, p1) = match p_u8(b, pos) {
        Ok(v) => v,
        Err(e) => {
            return Err(e);
        },
    };
    if tag == 0 {
        Ok((Command::BroadcastUpdate, p1))
    } else if tag == 1 {
        match p_id_pair(b, p1) {
            Ok(((a, c), p2)) => Ok((Command::InCall(a, c), p2)),
            Err(e) => Err(e),
        }
    } else if tag == 2 {
        match p_id_pair(b, p1) {
            Ok(((a, c), p2)) => Ok((Command::EndCall(a, c), p2)),
            Err(e) => Err(e),
        }
    } else if tag == 3 {
        match p_client(b, p1) {
            Ok((cl, p2)) => Ok((Command::ClientInfo(cl), p2)),
            Err(e) => Err(e),
        }
    } else if tag == 4 {
        match p_str(b, p1) {
            Ok((s, p2)) => Ok((Command::Error(s), p2)),
            Err(e) => Err(e),
        }
    } else if tag == 5 {
        match p_client(b, p1) {
            Ok((cl, p2)) => Ok((Command::ServerInitiated(cl), p2)),
            Err(e) => Err(e),
        }
    } else if tag == 6 {
        let (n, p2) = match p_u64(b, p1) {
            Ok(v) => v,
            Err(e) => {
                return Err(e);
            },
        };
        let (cs, p3) = match p_clients(b, p2, n) {
            Ok(v) => v,
            Err(e) => {
                return Err(e);
            },
        };
        match p_u64(b, p3) {
            Ok((round, p4)) => Ok((Command::OnlineClients(cs, round), p4)),
            Err(e) => Err(e),
        }
    } else if tag == 7 {
        match p_str(b, p1) {
            Ok((s, p2)) => Ok((Command::SdpRequest(s), p2)),
            Err(e) => Err(e),
        }
    } else if tag == 8 {
        match p_str(b, p1) {
            Ok((s, p2)) => Ok((Command::SdpResponse(s), p2)),
            Err(e) => Err(e),
        }
    } else if tag == 9 {
        match p_id(b, p1) {
            Ok((id, p2)) => Ok((Command::ClosedConnection(id), p2)),
            Err(e) => Err(e),
        }
    } else if tag == 10 {
        match p_id(b, p1) {
            Ok((id, p2)) => Ok((Command::AckClosedConnection(id), p2)),
            Err(e) => Err(e),
        }
    } else if tag == 11 {
        match p_str(b, p1) {
            Ok((s, p2)) => Ok((Command::IceCandidate(s), p2)),
            Err(e) => Err(e),
        }
    } else if tag == 12 {
        let (id, p2) = match p_id(b, p1) {
            Ok(v) => v,
            Err(e) => {
                return Err(e);
            },
        };
        match p_u64(b, p2) {
            Ok((round, p3)) => Ok((Command::Ping(id, round), p3)),
            Err(e) => Err(e),
        }
    } else if tag == 13 {
        let (id, p2) = match p_id(b, p1) {
            Ok(v) => v,
            Err(e) => {
                return Err(e);
            },
        };
        match p_u64(b, p2) {
            Ok((round, p3)) => Ok((Command::Pong(id, round), p3)),
            Err(e) => Err(e),
        }
    } else if tag == 14 {
        match p_client(b, p1) {
            Ok((cl, p2)) => Ok((Command::ReadyForPartner(cl), p2)),
            Err(e) => Err(e),
        }
    } else {
        Err(DecodeError::InvalidTag)
    }
}

impl Envelope {
    /// Encode this envelope into its deterministic byte form.
    pub fn serialize(&self) -> (out: Vec<u8>)
        ensures
            out@ == spec_encode(self@),
    {
        let mut out: Vec<u8> = Vec::new();
        emit_detail(&mut out, self.sender.entity_detail);
        emit_opt_entity(&mut out, self.intermediary);
        emit_detail(&mut out, self.receiver.entity_detail);
        emit_command(&mut out, &self.command);
        proof {
            assert(out@ =~= spec_encode(self@));
        }
        out
    }

    /// Decode one envelope from the given bytes. Succeeds exactly on the
    /// byte strings that encode one well-formed envelope and nothing more;
    /// truncated or malformed input yields a typed error and no envelope.
    pub fn deserialize(bytes: &[u8]) -> (r: Result<Envelope, DecodeError>)
        ensures
            (r matches Ok(env) ==> spec_decode(bytes@) == Some(env@) && env.wf()),
            r is Err ==> spec_decode(bytes@) is None,
    {
        proof {
            assert(bytes@.skip(0) =~= bytes@);
        }
        let (sd, p1) = match p_detail(bytes, 0) {
            Ok(v) => v,
            Err(e) => {
                return Err(e);
            },
        };
        let (intermediary, p2) = match p_opt_entity(bytes, p1) {
            Ok(v) => v,
            Err(e) => {
                return Err(e);
            },
        };
        let (rd, p3) = match p_detail(bytes, p2) {
            Ok(v) => v,
            Err(e) => {
                return Err(e);
            },
        };
        let (command, p4) = match p_command(bytes, p3) {
            Ok(v) => v,
            Err(e) => {
                return Err(e);
            },
        };
        if p4 != bytes.len() {
            return Err(DecodeError::TrailingBytes);
        }
        let sender = Entity::new(sd);
        let receiver = Entity::new(rd);
        proof {
            assert(sender == entity_of(sd));
            assert(receiver == entity_of(rd));
            assert(bytes@.skip(p4 as int).len() == 0);
        }
        Ok(Envelope { sender, intermediary, receiver, command })
    }
}

} // verus!
