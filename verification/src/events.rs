//! Domain events: the account-creation event, its wire payload, the
//! best-effort publisher, and per-topic dispatch.
//!
//! The payload is the crate's own JSON object with stable field names
//! (`userId`, `email`); building and parsing it are verified and invert one
//! another. Publication is fire-and-forget: the caller's flow never fails on
//! a publish failure. Dispatch looks a handler up by exact topic match and
//! drops messages for unknown topics.

use vstd::prelude::*;
use vstd::string::{StrSliceExecFns, StringSliceAdditionalSpecFns};
use vstd::utf8::{decode_utf8, encode_utf8, valid_utf8};

use crate::ids;
use crate::json::{
    escape_into, has_at, lemma_has_at_skip, lemma_parse_escaped, parse_string_at, spec_escape,
    spec_has_at, spec_parse_string,
};
use crate::strutil::{eq_str, string_from_utf8};

verus! {

/// Emitted once per successful registration.
pub struct UserCreated {
    pub user_id: u128,
    pub email: String,
}

/// The topic account-creation events are published on.
pub fn user_created_topic() -> (r: &'static str)
    ensures
        r@ == "user.created"@,
{
    "user.created"
}

/// The opening of the event payload: `{"userId":"`.
pub open spec fn event_obj_user_id() -> Seq<u8> {
    seq![123u8, 34u8, 117u8, 115u8, 101u8, 114u8, 73u8, 100u8, 34u8, 58u8, 34u8]
}

/// The email key between payload fields: `,"email":"`.
pub open spec fn event_obj_email() -> Seq<u8> {
    seq![44u8, 34u8, 101u8, 109u8, 97u8, 105u8, 108u8, 34u8, 58u8, 34u8]
}

fn push_event_user_id(out: &mut Vec<u8>)
    ensures
        final(out)@ == old(out)@ + event_obj_user_id(),
{
    out.push(123);
    out.push(34);
    out.push(117);
    out.push(115);
    out.push(101);
    out.push(114);
    out.push(73);
    out.push(100);
    out.push(34);
    out.push(58);
    out.push(34);
    proof {
        assert(out@ =~= old(out)@ + event_obj_user_id());
    }
}

fn push_event_email(out: &mut Vec<u8>)
    ensures
        final(out)@ == old(out)@ + event_obj_email(),
{
    out.push(44);
    out.push(34);
    out.push(101);
    out.push(109);
    out.push(97);
    out.push(105);
    out.push(108);
    out.push(34);
    out.push(58);
    out.push(34);
    proof {
        assert(out@ =~= old(out)@ + event_obj_email());
    }
}

/// The payload of an account-creation event: the user id in canonical text
/// and the email, both as escaped JSON strings.
pub open spec fn spec_user_created_json(user_id: u128, email_b: Seq<u8>) -> Seq<u8> {
    event_obj_user_id() + spec_escape(encode_utf8(ids::uuid_str_of(user_id))) + seq![34u8]
        + event_obj_email() + spec_escape(email_b) + seq![34u8, 125u8]
}

/// Builds the payload of an account-creation event.
pub fn user_created_payload(event: &UserCreated) -> (r: Vec<u8>)
    ensures
        r@ == spec_user_created_json(event.user_id, encode_utf8(event.email@)),
{
    let mut out: Vec<u8> = Vec::new();
    push_event_user_id(&mut out);
    let uid_text = ids::uuid_to_string(event.user_id);
    let uid_b = uid_text.as_str().as_bytes_vec();
    proof {
        assert(uid_b@ == encode_utf8(ids::uuid_str_of(event.user_id)));
    }
    escape_into(&mut out, uid_b.as_slice());
    out.push(34);
    push_event_email(&mut out);
    let email_b = event.email.as_str().as_bytes_vec();
    escape_into(&mut out, email_b.as_slice());
    out.push(34);
    out.push(125);
    proof {
        assert(out@ =~= spec_user_created_json(event.user_id, encode_utf8(event.email@)));
    }
    out
}

/// Parses a payload back into its user-id text bytes and email bytes;
/// `None` where the bytes are not the payload shape.
pub open spec fn spec_parse_user_created(p: Seq<u8>) -> Option<(Seq<u8>, Seq<u8>)> {
    if !spec_has_at(p, 0, event_obj_user_id()) {
        None
    } else {
        match spec_parse_string(p.skip(11)) {
            None => None,
            Some((uid_b, r1)) => if !spec_has_at(r1, 0, event_obj_email()) {
                None
            } else {
                match spec_parse_string(r1.skip(10)) {
                    None => None,
                    Some((email_b, r2)) => if r2 == seq![125u8] {
                        Some((uid_b, email_b))
                    } else {
                        None
                    },
                }
            },
        }
    }
}

/// Parses the payload of an account-creation event.
pub fn parse_user_created_payload(p: &[u8]) -> (r: Option<(Vec<u8>, Vec<u8>)>)
    ensures
        match r {
            Some((uid_v, email_v)) => spec_parse_user_created(p@) == Some((uid_v@, email_v@)),
            None => spec_parse_user_created(p@) is None,
        },
{
    let lit_uid = {
        let mut v: Vec<u8> = Vec::new();
        push_event_user_id(&mut v);
        v
    };
    let lit_email = {
        let mut v: Vec<u8> = Vec::new();
        push_event_email(&mut v);
        v
    };
    let n = p.len();
    if !has_at(p, 0, lit_uid.as_slice()) {
        proof {
            assert(p@.skip(0) =~= p@);
        }
        return None;
    }
    proof {
        assert(p@.skip(0) =~= p@);
    }
    let r1 = parse_string_at(p, 11);
    match r1 {
        None => {
            proof {
                assert(p@.skip(11) =~= p@.skip(0).skip(11));
            }
            None
        },
        Some((uid_v, e1)) => {
            proof {
                assert(p@.skip(11) =~= p@.skip(0).skip(11));
                lemma_has_at_skip(p@, e1 as int, event_obj_email());
            }
            if !has_at(p, e1, lit_email.as_slice()) {
                return None;
            }
            proof {
                assert(p@.skip(e1 as int).skip(10) =~= p@.skip(e1 + 10int));
            }
            let r2 = parse_string_at(p, e1 + 10);
            match r2 {
                None => None,
                Some((email_v, e2)) => {
                    let tail_ok = n - e2 == 1 && p[e2] == 125;
                    proof {
                        let r2s = p@.skip(e2 as int);
                        if e2 < p@.len() {
                            assert(r2s[0] == p@[e2 as int]);
                        }
                        if tail_ok {
                            assert(r2s =~= seq![125u8]);
                        } else {
                            if r2s.len() == 1 {
                                assert(p@[e2 as int] != 125);
                                assert(r2s[0] != seq![125u8][0]);
                            } else {
                                assert(r2s.len() != seq![125u8].len());
                            }
                            assert(r2s != seq![125u8]);
                        }
                    }
                    if tail_ok {
                        Some((uid_v, email_v))
                    } else {
                        None
                    }
                },
            }
        },
    }
}

/// Parsing the payload inverts building it.
pub proof fn lemma_user_created_round_trip(user_id: u128, email_b: Seq<u8>)
    ensures
        spec_parse_user_created(spec_user_created_json(user_id, email_b)) == Some(
            (encode_utf8(ids::uuid_str_of(user_id)), email_b),
        ),
{
    let uid_b = encode_utf8(ids::uuid_str_of(user_id));
    let p = spec_user_created_json(user_id, email_b);
    let r1s = event_obj_email() + spec_escape(email_b) + seq![34u8, 125u8];
    assert(p.subrange(0, 11) =~= event_obj_user_id());
    assert(spec_has_at(p, 0, event_obj_user_id()));
    assert(p.skip(11) =~= spec_escape(uid_b) + seq![34u8] + r1s);
    lemma_parse_escaped(uid_b, r1s);
    assert(r1s.subrange(0, 10) =~= event_obj_email());
    assert(spec_has_at(r1s, 0, event_obj_email()));
    assert(r1s.skip(10) =~= spec_escape(email_b) + seq![34u8] + seq![125u8]);
    lemma_parse_escaped(email_b, seq![125u8]);
}

/// A failure in event handling or payload framing.
#[derive(Debug)]
pub enum KafkaError {
    SerializationError(String),
    CalculatedError(String),
}

pub type KafkaResult<T> = Result<T, KafkaError>;

/// The best-effort publisher: a log of messages handed to the broker, each a
/// topic, a partitioning key and a payload.
pub struct EventPublisher {
    sent: Vec<SentMessage>,
}

struct SentMessage {
    topic: String,
    key: String,
    payload: Vec<u8>,
}

impl EventPublisher {
    /// The messages handed over so far, oldest first.
    pub closed spec fn sent_log(&self) -> Seq<(Seq<char>, Seq<char>, Seq<u8>)> {
        Seq::new(
            self.sent@.len(),
            |i: int| (self.sent@[i].topic@, self.sent@[i].key@, self.sent@[i].payload@),
        )
    }

    pub fn new() -> (r: Self)
        ensures
            r.sent_log() == Seq::<(Seq<char>, Seq<char>, Seq<u8>)>::empty(),
    {
        let r = EventPublisher { sent: Vec::new() };
        proof {
            assert(r.sent_log() =~= Seq::<(Seq<char>, Seq<char>, Seq<u8>)>::empty());
        }
        r
    }

    /// Hands one message over.
    pub fn send(&mut self, topic: &str, key: &str, payload: Vec<u8>) -> (r: KafkaResult<()>)
        ensures
            r is Ok,
            final(self).sent_log() =~= old(self).sent_log().push((topic@, key@, payload@)),
    {
        let ghost pv = payload@;
        self.sent.push(
            SentMessage { topic: topic.to_owned(), key: key.to_owned(), payload },
        );
        proof {
            assert(final(self).sent_log() =~= old(self).sent_log().push((topic@, key@, pv)));
        }
        Ok(())
    }

    /// How many messages have been handed over.
    pub fn sent_count(&self) -> (r: usize)
        ensures
            r == self.sent_log().len(),
    {
        self.sent.len()
    }

    /// The topic of the `i`-th message.
    pub fn topic_at(&self, i: usize) -> (r: &String)
        requires
            i < self.sent_log().len(),
        ensures
            r@ == self.sent_log()[i as int].0,
    {
        &self.sent[i].topic
    }

    /// The key of the `i`-th message.
    pub fn key_at(&self, i: usize) -> (r: &String)
        requires
            i < self.sent_log().len(),
        ensures
            r@ == self.sent_log()[i as int].1,
    {
        &self.sent[i].key
    }

    /// The payload of the `i`-th message.
    pub fn payload_at(&self, i: usize) -> (r: &Vec<u8>)
        requires
            i < self.sent_log().len(),
        ensures
            r@ == self.sent_log()[i as int].2,
    {
        &self.sent[i].payload
    }

    /// Publishes an account-creation event: topic `user.created`, the user id
    /// in canonical text as the key, the payload as built by this crate.
    pub fn publish_user_created(&mut self, event: UserCreated) -> (r: KafkaResult<()>)
        ensures
            r is Ok,
            final(self).sent_log() =~= old(self).sent_log().push(
                (
                    "user.created"@,
                    ids::uuid_str_of(event.user_id),
                    spec_user_created_json(event.user_id, encode_utf8(event.email@)),
                ),
            ),
    {
        let key = ids::uuid_to_string(event.user_id);
        let payload = user_created_payload(&event);
        self.send(user_created_topic(), key.as_str(), payload)
    }
}

/// Handles an account-creation message: checks and reads the payload; the
/// side effect (a welcome notification) is idempotent and tolerates
/// duplicate delivery.
pub struct WelcomeEmailHandler {
}

impl Default for WelcomeEmailHandler {
    fn default() -> (r: Self) {
        WelcomeEmailHandler {  }
    }
}

/// Whether a payload carries a well-typed account-creation event: the JSON
/// shape is right, both field texts are UTF-8, and the user id parses.
pub open spec fn spec_event_wellformed(p: Seq<u8>) -> bool {
    match spec_parse_user_created(p) {
        None => false,
        Some((uid_b, email_b)) => valid_utf8(uid_b) && valid_utf8(email_b) && ids::uuid_of(
            decode_utf8(uid_b),
        ) is Some,
    }
}

impl WelcomeEmailHandler {
    /// Reads the payload as a typed event — the shape, the field texts and
    /// the user id must all parse; anything less is a serialization error.
    /// A well-formed payload is acknowledged, so a duplicate delivery is
    /// acknowledged again without any further effect.
    pub fn handle(&self, payload: &str) -> (r: KafkaResult<()>)
        ensures
            r is Ok <==> spec_event_wellformed(payload.spec_bytes()),
            r matches Err(e) ==> e is SerializationError,
    {
        let bytes = payload.as_bytes_vec();
        match decode_user_created(bytes.as_slice()) {
            Some(_) => Ok(()),
            None => Err(KafkaError::SerializationError(String::from_str("malformed payload"))),
        }
    }
}

/// The parsed form of an account-creation payload, with the user id restored
/// to its 128-bit value.
pub fn decode_user_created(payload: &[u8]) -> (r: Option<UserCreated>)
    ensures
        match spec_parse_user_created(payload@) {
            None => r is None,
            Some(fields) => if valid_utf8(fields.0) && valid_utf8(fields.1) {
                match ids::uuid_of(decode_utf8(fields.0)) {
                    None => r is None,
                    Some(uid) => r matches Some(ev) && ev.user_id == uid && ev.email@
                        == decode_utf8(fields.1),
                }
            } else {
                r is None
            },
        },
{
    match parse_user_created_payload(payload) {
        None => None,
        Some((uid_v, email_v)) => {
            let ghost uid_b = uid_v@;
            let ghost email_b = email_v@;
            let uid_s = match string_from_utf8(uid_v) {
                None => {
                    return None;
                },
                Some(s) => s,
            };
            let email_s = match string_from_utf8(email_v) {
                None => {
                    return None;
                },
                Some(s) => s,
            };
            match ids::uuid_parse(uid_s.as_str()) {
                None => None,
                Some(uid) => Some(UserCreated { user_id: uid, email: email_s }),
            }
        },
    }
}

/// Per-topic dispatch: handlers are registered under topic names; a message
/// is routed to the latest handler registered for its exact topic — so
/// registering a topic again replaces its handler — and dropped when no
/// registration matches.
pub struct EventDispatcher {
    topics: Vec<String>,
}

impl EventDispatcher {
    pub closed spec fn registered(&self) -> Seq<Seq<char>> {
        Seq::new(self.topics@.len(), |i: int| self.topics@[i]@)
    }

    pub fn new() -> (r: Self)
        ensures
            r.registered() == Seq::<Seq<char>>::empty(),
    {
        let r = EventDispatcher { topics: Vec::new() };
        proof {
            assert(r.registered() =~= Seq::<Seq<char>>::empty());
        }
        r
    }

    /// Registers a handler slot for a topic; the returned index is the
    /// handler's place in the registration order.
    pub fn register_handler(&mut self, topic: String) -> (r: usize)
        ensures
            final(self).registered() =~= old(self).registered().push(topic@),
            r == old(self).registered().len(),
    {
        let r = self.topics.len();
        self.topics.push(topic);
        r
    }

    /// The handler a message on `topic` is routed to: the latest
    /// registration under that exact topic, or none, in which case the
    /// message is dropped.
    pub fn route(&self, topic: &str) -> (r: Option<usize>)
        ensures
            match r {
                Some(i) => {
                    &&& i < self.registered().len()
                    &&& self.registered()[i as int] == topic@
                    &&& forall|k: int|
                        i < k < self.registered().len() ==> self.registered()[k] != topic@
                },
                None => forall|k: int|
                    0 <= k < self.registered().len() ==> self.registered()[k] != topic@,
            },
    {
        let mut i: usize = self.topics.len();
        while i > 0
            invariant
                i <= self.topics@.len(),
                forall|k: int| i <= k < self.registered().len() ==> self.registered()[k] != topic@,
            decreases i,
        {
            i = i - 1;
            if eq_str(self.topics[i].as_str(), topic) {
                proof {
                    assert(self.registered()[i as int] == topic@);
                }
                return Some(i);
            }
            proof {
                assert(self.registered()[i as int] == self.topics@[i as int]@);
            }
        }
        None
    }
}

} // verus!
