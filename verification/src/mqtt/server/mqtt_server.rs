//! The broker's bookkeeping: the messages kept per topic, the users and what
//! each one has been sent. Sending is left to the caller: every operation
//! appends the writes it makes, as pairs of user name and bytes, to `out`.
use vstd::prelude::*;
use crate::mqtt::mqtt_utils::codec::copy_range;
use crate::mqtt::mqtt_utils::codec::copy_string;
use crate::mqtt::mqtt_utils::mqtt_error::MqttError;
use super::entries::entry_of;
use super::entries::find_entry;
use super::entries::lemma_entry_of_push;
use super::entries::lemma_entry_of_update;
use crate::mqtt::messages::connect_message::ConnectMessage;
use crate::mqtt::messages::disconnect_message::DisconnectMessage;
use crate::mqtt::messages::disconnect_message::disconnect_bytes;
use crate::mqtt::messages::publish_message::PublishMessage;
use crate::mqtt::messages::publish_message::PublishModel;
use crate::mqtt::messages::publish_message::publish_bytes;
use crate::mqtt::messages::publish_message::publish_built;
use crate::mqtt::messages::publish_message::publish_fits;
use crate::publish_flags::PublishFlags;
use crate::mqtt::mqtt_utils::codec::text_bytes;
use crate::mqtt::mqtt_utils::codec::text_len;
use crate::mqtt::mqtt_utils::will_message_utils::will_message::WillMessageAndTopic;
use crate::mqtt::mqtt_utils::will_message_utils::will_message::will_view;
use crate::mqtt::messages::connect_message::connect_will;
use crate::mqtt::messages::subscribe_return_code::SubscribeReturnCode;
use crate::puback_message::PubAckMessage;
use crate::puback_message::puback_bytes;
use crate::suback_message::SubAckMessage;
use crate::suback_message::SubAckModel;
use crate::suback_message::suback_bytes;
use crate::subscribe_message::SubscribeMessage;
use super::user::User;
use super::user::contains_topic;
use super::user::has_topic;
use super::user::last_id_of;
use super::user_state::UserState;

verus! {

/// Messages a topic keeps before old ones are considered for removal.
pub const TOPIC_MESSAGES_LEN: usize = 50;

/// Most messages one topic may hold: delivery counts are kept in an `i32`.
pub const MAX_TOPIC_MESSAGES: usize = 0x7FFF_FFFF;

/// The broker's state: connected users, and for each topic the messages
/// published to it, each kept as the bytes it is sent as.
pub struct MQTTServer {
    pub connected_users: Vec<User>,
    pub available_packet_id: u16,
    pub messages_by_topic: Vec<(String, Vec<Vec<u8>>)>,
}

/// The messages kept for `topic`, oldest first.
pub open spec fn queue_of(msgs: Seq<(String, Vec<Vec<u8>>)>, topic: Seq<char>) -> Seq<Seq<u8>> {
    match entry_of(msgs, topic) {
        Some(q) => q@.map_values(|m: Vec<u8>| m@),
        None => Seq::empty(),
    }
}

/// Writes as pairs of user name and bytes.
pub open spec fn writes_view(out: Seq<(String, Vec<u8>)>) -> Seq<(Seq<char>, Seq<u8>)> {
    out.map_values(|w: (String, Vec<u8>)| (w.0@, w.1@))
}

/// The writes that send each of `msgs` to `name`.
pub open spec fn writes_to(name: Seq<char>, msgs: Seq<Seq<u8>>) -> Seq<(Seq<char>, Seq<u8>)> {
    msgs.map_values(|m: Seq<u8>| (name, m))
}

/// The messages of `topic` that `u` has yet to receive.
pub open spec fn pending(s: MQTTServer, u: User, topic: Seq<char>) -> Seq<Seq<u8>> {
    queue_of(s.messages_by_topic@, topic).skip(last_id_of(u.last_id_by_topic@, topic) as int)
}

/// No two users share a name.
pub open spec fn unique_names(users: Seq<User>) -> bool {
    forall|i: int, j: int|
        0 <= i < j < users.len() ==> (#[trigger] users[i]).username@ != (#[trigger] users[j]).username@
}

/// The invariant of the broker's state: names are unique, no topic holds
/// more than `MAX_TOPIC_MESSAGES` messages, no user's delivery index for a
/// topic is beyond the messages the topic holds, and a user's index for a
/// topic it is not subscribed to is 0.
pub open spec fn server_wf(s: MQTTServer) -> bool {
    &&& unique_names(s.connected_users@)
    &&& forall|t: Seq<char>| #[trigger] queue_of(s.messages_by_topic@, t).len() <= MAX_TOPIC_MESSAGES
    &&& forall|i: int, t: Seq<char>|
        0 <= i < s.connected_users@.len() ==> #[trigger] last_id_of(
            s.connected_users@[i].last_id_by_topic@,
            t,
        ) <= queue_of(s.messages_by_topic@, t).len()
    &&& forall|i: int, t: Seq<char>|
        0 <= i < s.connected_users@.len() && !has_topic(s.connected_users@[i].topics@, t)
            ==> #[trigger] last_id_of(s.connected_users@[i].last_id_by_topic@, t) == 0
}

/// What `send_unreceived_messages` does to user `u` for `topic` with the
/// messages `q`: whether it fails, and the user's delivery index after it.
pub open spec fn delivery_result(u: User, topic: Seq<char>, q: Seq<Seq<u8>>) -> Result<(), MqttError> {
    let li = last_id_of(u.last_id_by_topic@, topic);
    if !has_topic(u.topics@, topic) {
        Ok(())
    } else if li > q.len() {
        Err(MqttError::DeliveryIndexBeyondQueue)
    } else if li < q.len() && u.state == UserState::TemporallyDisconnected {
        Err(MqttError::UserNotConnected)
    } else {
        Ok(())
    }
}

/// Whether delivering `topic` to `u` writes anything.
pub open spec fn delivery_writes(u: User, topic: Seq<char>, q: Seq<Seq<u8>>) -> bool {
    &&& has_topic(u.topics@, topic)
    &&& last_id_of(u.last_id_by_topic@, topic) < q.len()
    &&& u.state != UserState::TemporallyDisconnected
}

/// `after` is `before` with its delivery index for `topic` set to `x`.
pub open spec fn user_with_index(before: User, after: User, topic: Seq<char>, x: u32) -> bool {
    &&& after.username == before.username
    &&& after.state == before.state
    &&& after.will_message == before.will_message
    &&& after.topics == before.topics
    &&& forall|t: Seq<char>|
        #![trigger entry_of(after.last_id_by_topic@, t)]
        entry_of(after.last_id_by_topic@, t) == if t == topic {
            Some(x)
        } else {
            entry_of(before.last_id_by_topic@, t)
        }
}

/// What `send_unreceived_messages` leaves of the users and writes: user `ui`
/// sent its pending messages of `topic` when `delivery_writes` holds, and
/// everything else unchanged.
pub open spec fn delivered(old_s: MQTTServer, new_s: MQTTServer, ui: int, topic: Seq<char>, old_out: Seq<(Seq<char>, Seq<u8>)>, new_out: Seq<(Seq<char>, Seq<u8>)>) -> bool {
    let u = old_s.connected_users@[ui];
    let q = queue_of(old_s.messages_by_topic@, topic);
    &&& new_s.messages_by_topic == old_s.messages_by_topic
    &&& new_s.available_packet_id == old_s.available_packet_id
    &&& new_s.connected_users@.len() == old_s.connected_users@.len()
    &&& forall|j: int| 0 <= j < old_s.connected_users@.len() && j != ui ==> new_s.connected_users@[j] == old_s.connected_users@[j]
    &&& if delivery_writes(u, topic, q) && delivery_result(u, topic, q) is Ok {
        &&& user_with_index(u, new_s.connected_users@[ui], topic, q.len() as u32)
        &&& new_out == old_out + writes_to(u.username@, q.skip(last_id_of(u.last_id_by_topic@, topic) as int))
    } else {
        &&& new_s.connected_users@[ui] == u
        &&& new_out == old_out
    }
}

/// The first of `users`, from position `i` on, whose delivery of `topic`
/// with the messages `q` fails; the number of users when none does.
pub open spec fn first_failure_from(users: Seq<User>, topic: Seq<char>, q: Seq<Seq<u8>>, i: int) -> int
    decreases users.len() - i,
{
    if i < 0 || i >= users.len() {
        users.len() as int
    } else if delivery_result(users[i], topic, q) is Err {
        i
    } else {
        first_failure_from(users, topic, q, i + 1)
    }
}

/// The writes that delivering `topic` makes to the first `k` users.
pub open spec fn delivery_writes_upto(users: Seq<User>, topic: Seq<char>, q: Seq<Seq<u8>>, k: int) -> Seq<(Seq<char>, Seq<u8>)>
    decreases k,
{
    if k <= 0 {
        Seq::empty()
    } else {
        let u = users[k - 1];
        delivery_writes_upto(users, topic, q, k - 1) + if delivery_writes(u, topic, q) {
            writes_to(u.username@, q.skip(last_id_of(u.last_id_by_topic@, topic) as int))
        } else {
            Seq::empty()
        }
    }
}

/// `after` is `before` after delivering `topic` with the messages `q`
/// without failure.
pub open spec fn user_delivered(before: User, after: User, topic: Seq<char>, q: Seq<Seq<u8>>) -> bool {
    if delivery_writes(before, topic, q) {
        user_with_index(before, after, topic, q.len() as u32)
    } else {
        after == before
    }
}

proof fn lemma_first_failure_bounds(users: Seq<User>, topic: Seq<char>, q: Seq<Seq<u8>>, i: int)
    requires
        0 <= i <= users.len(),
    ensures
        i <= first_failure_from(users, topic, q, i) <= users.len(),
        forall|j: int| i <= j < first_failure_from(users, topic, q, i) ==> #[trigger] delivery_result(users[j], topic, q) is Ok,
        first_failure_from(users, topic, q, i) < users.len() ==> delivery_result(users[first_failure_from(users, topic, q, i)], topic, q) is Err,
    decreases users.len() - i,
{
    if i < users.len() && delivery_result(users[i], topic, q) is Ok {
        lemma_first_failure_bounds(users, topic, q, i + 1);
    }
}

/// The least delivery index for `topic` among the first `k` users that are
/// subscribed to it; `u32::MAX` when none is.
pub open spec fn min_last_id_upto(users: Seq<User>, topic: Seq<char>, k: int) -> u32
    decreases k,
{
    if k <= 0 {
        u32::MAX
    } else {
        let m = min_last_id_upto(users, topic, k - 1);
        let u = users[k - 1];
        if has_topic(u.topics@, topic) && last_id_of(u.last_id_by_topic@, topic) < m {
            last_id_of(u.last_id_by_topic@, topic)
        } else {
            m
        }
    }
}

/// The least delivery index for `topic` among the users subscribed to it;
/// `u32::MAX` when none is.
pub open spec fn min_last_id(users: Seq<User>, topic: Seq<char>) -> u32 {
    min_last_id_upto(users, topic, users.len() as int)
}

/// The minimum is at most the index of every subscribed user, and is one of
/// them unless it is `u32::MAX`.
pub proof fn lemma_min_last_id(users: Seq<User>, topic: Seq<char>, k: int)
    requires
        0 <= k <= users.len(),
    ensures
        forall|j: int|
            0 <= j < k && has_topic((#[trigger] users[j]).topics@, topic) ==> min_last_id_upto(users, topic, k)
                <= last_id_of(users[j].last_id_by_topic@, topic),
        min_last_id_upto(users, topic, k) == u32::MAX || exists|j: int|
            0 <= j < k && has_topic((#[trigger] users[j]).topics@, topic) && last_id_of(
                users[j].last_id_by_topic@,
                topic,
            ) == min_last_id_upto(users, topic, k),
    decreases k,
{
    if k > 0 {
        lemma_min_last_id(users, topic, k - 1);
    }
}

/// What `remove_old_messages_from_server` makes of the broker's state for
/// `topic`: when the topic holds more than `TOPIC_MESSAGES_LEN` messages and
/// there are users, the messages before the least delivery index of the
/// subscribers are dropped (all of them when nobody is subscribed), and each
/// subscriber's index is lowered by that amount.
pub open spec fn trimmed(before: MQTTServer, after: MQTTServer, topic: Seq<char>, r: Result<(), MqttError>) -> bool {
    let q = queue_of(before.messages_by_topic@, topic);
    let users = before.connected_users@;
    &&& after.available_packet_id == before.available_packet_id
    &&& if q.len() <= TOPIC_MESSAGES_LEN {
        &&& r == Ok::<(), MqttError>(())
        &&& after == before
    } else if users.len() == 0 {
        &&& r == Err::<(), MqttError>(MqttError::NoUsers)
        &&& after == before
    } else {
        let m = min_last_id(users, topic);
        &&& r == Ok::<(), MqttError>(())
        &&& forall|t: Seq<char>|
            #![trigger queue_of(after.messages_by_topic@, t)]
            queue_of(after.messages_by_topic@, t) == if t == topic {
                q.skip(if m < q.len() { m as int } else { q.len() as int })
            } else {
                queue_of(before.messages_by_topic@, t)
            }
        &&& after.connected_users@.len() == users.len()
        &&& forall|j: int|
            0 <= j < users.len() ==> if has_topic((#[trigger] users[j]).topics@, topic) {
                user_with_index(
                    users[j],
                    after.connected_users@[j],
                    topic,
                    (last_id_of(users[j].last_id_by_topic@, topic) - m) as u32,
                )
            } else {
                after.connected_users@[j] == users[j]
            }
    }
}

/// What `store_and_distribute_publish_msg` does: `msg` is appended to the
/// messages of `topic`, then users are sent what they miss of `topic`, in
/// order, up to the first whose delivery fails, whose failure is the result.
pub open spec fn distributed(
    before: MQTTServer,
    after: MQTTServer,
    topic: Seq<char>,
    msg: Seq<u8>,
    r: Result<(), MqttError>,
    old_out: Seq<(Seq<char>, Seq<u8>)>,
    new_out: Seq<(Seq<char>, Seq<u8>)>,
) -> bool {
    let users = before.connected_users@;
    let q = queue_of(before.messages_by_topic@, topic).push(msg);
    let k = first_failure_from(users, topic, q, 0);
    &&& after.available_packet_id == before.available_packet_id
    &&& forall|t: Seq<char>|
        #![trigger queue_of(after.messages_by_topic@, t)]
        queue_of(after.messages_by_topic@, t) == if t == topic {
            q
        } else {
            queue_of(before.messages_by_topic@, t)
        }
    &&& after.connected_users@.len() == users.len()
    &&& r == if k < users.len() {
        delivery_result(users[k], topic, q)
    } else {
        Ok(())
    }
    &&& forall|j: int| 0 <= j < k ==> user_delivered(users[j], #[trigger] after.connected_users@[j], topic, q)
    &&& forall|j: int| k <= j < users.len() ==> #[trigger] after.connected_users@[j] == users[j]
    &&& new_out == old_out + delivery_writes_upto(users, topic, q, k)
}

/// Trimming keeps the invariant, and leaves every user's pending messages,
/// of every topic, as they were.
pub proof fn lemma_trim_keeps_pending(before: MQTTServer, after: MQTTServer, topic: Seq<char>, r: Result<(), MqttError>)
    requires
        server_wf(before),
        trimmed(before, after, topic, r),
    ensures
        server_wf(after),
        after.connected_users@.len() == before.connected_users@.len(),
        forall|j: int, t: Seq<char>|
            0 <= j < before.connected_users@.len() && has_topic(before.connected_users@[j].topics@, t)
                ==> #[trigger] pending(after, after.connected_users@[j], t) == pending(before, before.connected_users@[j], t),
{
    let q = queue_of(before.messages_by_topic@, topic);
    let users = before.connected_users@;
    if q.len() > TOPIC_MESSAGES_LEN && users.len() > 0 {
        let m = min_last_id(users, topic);
        lemma_min_last_id(users, topic, users.len() as int);
        let n: int = if m < q.len() { m as int } else { q.len() as int };
        assert(queue_of(after.messages_by_topic@, topic) == q.skip(n));
        assert forall|j: int, t: Seq<char>| 0 <= j < after.connected_users@.len() implies #[trigger] last_id_of(
            after.connected_users@[j].last_id_by_topic@,
            t,
        ) <= queue_of(after.messages_by_topic@, t).len() by {
            assert(has_topic(users[j].topics@, topic) ==> m <= last_id_of(users[j].last_id_by_topic@, topic));
            assert(last_id_of(users[j].last_id_by_topic@, t) <= queue_of(before.messages_by_topic@, t).len());
            if has_topic(users[j].topics@, topic) {
                if m == u32::MAX {
                    assert(last_id_of(users[j].last_id_by_topic@, topic) <= MAX_TOPIC_MESSAGES);
                }
            }
        }
        assert forall|j: int, t: Seq<char>|
            0 <= j < after.connected_users@.len() && !has_topic(after.connected_users@[j].topics@, t)
            implies #[trigger] last_id_of(after.connected_users@[j].last_id_by_topic@, t) == 0 by {
            assert(has_topic(users[j].topics@, topic) ==> after.connected_users@[j].topics == users[j].topics);
            assert(!has_topic(users[j].topics@, t));
            assert(last_id_of(users[j].last_id_by_topic@, t) == 0);
            if has_topic(users[j].topics@, topic) {
                assert(t != topic);
                assert(entry_of(after.connected_users@[j].last_id_by_topic@, t) == entry_of(users[j].last_id_by_topic@, t));
            }
        }
        assert forall|t: Seq<char>| #[trigger] queue_of(after.messages_by_topic@, t).len() <= MAX_TOPIC_MESSAGES by {
            assert(queue_of(before.messages_by_topic@, t).len() <= MAX_TOPIC_MESSAGES);
        }
        assert forall|j: int, t: Seq<char>|
            0 <= j < before.connected_users@.len() && has_topic(before.connected_users@[j].topics@, t)
            implies #[trigger] pending(after, after.connected_users@[j], t) == pending(before, before.connected_users@[j], t) by {
            if t == topic {
                let li = last_id_of(users[j].last_id_by_topic@, topic);
                assert(m <= li);
                assert(li <= q.len());
                if m == u32::MAX {
                    assert(li <= MAX_TOPIC_MESSAGES);
                }
                assert(n == m);
                assert(q.skip(n).skip(li - m) =~= q.skip(li as int));
            }
        }
        assert forall|i: int, j: int| 0 <= i < j < after.connected_users@.len() implies (#[trigger] after.connected_users@[i]).username@
            != (#[trigger] after.connected_users@[j]).username@ by {
            assert(users[i].username@ != users[j].username@);
        }
    }
}

/// Distribution keeps the invariant; when it succeeds, no user subscribed
/// to the topic has any of its messages pending.
pub proof fn lemma_distribute_delivers_all(
    before: MQTTServer,
    after: MQTTServer,
    topic: Seq<char>,
    msg: Seq<u8>,
    r: Result<(), MqttError>,
    old_out: Seq<(Seq<char>, Seq<u8>)>,
    new_out: Seq<(Seq<char>, Seq<u8>)>,
)
    requires
        server_wf(before),
        queue_of(before.messages_by_topic@, topic).len() < MAX_TOPIC_MESSAGES,
        distributed(before, after, topic, msg, r, old_out, new_out),
    ensures
        server_wf(after),
        r is Ok ==> forall|j: int|
            0 <= j < after.connected_users@.len() && has_topic(after.connected_users@[j].topics@, topic)
                ==> #[trigger] pending(after, after.connected_users@[j], topic).len() == 0,
{
    let users = before.connected_users@;
    let q = queue_of(before.messages_by_topic@, topic).push(msg);
    let k = first_failure_from(users, topic, q, 0);
    lemma_first_failure_bounds(users, topic, q, 0);
    assert(queue_of(after.messages_by_topic@, topic) == q);
    assert forall|j: int, t: Seq<char>| 0 <= j < after.connected_users@.len() implies #[trigger] last_id_of(
        after.connected_users@[j].last_id_by_topic@,
        t,
    ) <= queue_of(after.messages_by_topic@, t).len() by {
        assert(last_id_of(users[j].last_id_by_topic@, t) <= queue_of(before.messages_by_topic@, t).len());
        if j < k {
            assert(user_delivered(users[j], after.connected_users@[j], topic, q));
        } else {
            assert(after.connected_users@[j] == users[j]);
        }
        assert(queue_of(after.messages_by_topic@, t).len() >= queue_of(before.messages_by_topic@, t).len());
    }
    assert forall|j: int, t: Seq<char>|
        0 <= j < after.connected_users@.len() && !has_topic(after.connected_users@[j].topics@, t)
        implies #[trigger] last_id_of(after.connected_users@[j].last_id_by_topic@, t) == 0 by {
        if j < k {
            assert(user_delivered(users[j], after.connected_users@[j], topic, q));
            if delivery_writes(users[j], topic, q) {
                assert(after.connected_users@[j].topics == users[j].topics);
                assert(t != topic);
                assert(entry_of(after.connected_users@[j].last_id_by_topic@, t) == entry_of(users[j].last_id_by_topic@, t));
            }
        } else {
            assert(after.connected_users@[j] == users[j]);
        }
        assert(last_id_of(users[j].last_id_by_topic@, t) == 0);
    }
    assert forall|t: Seq<char>| #[trigger] queue_of(after.messages_by_topic@, t).len() <= MAX_TOPIC_MESSAGES by {
        assert(queue_of(before.messages_by_topic@, t).len() <= MAX_TOPIC_MESSAGES);
    }
    assert forall|i: int, j: int| 0 <= i < j < after.connected_users@.len() implies (#[trigger] after.connected_users@[i]).username@
        != (#[trigger] after.connected_users@[j]).username@ by {
        assert(users[i].username@ != users[j].username@);
        if i < k {
            assert(user_delivered(users[i], after.connected_users@[i], topic, q));
        }
        if j < k {
            assert(user_delivered(users[j], after.connected_users@[j], topic, q));
        }
    }
    if r is Ok {
        assert(k == users.len());
        assert forall|j: int|
            0 <= j < after.connected_users@.len() && has_topic(after.connected_users@[j].topics@, topic)
            implies #[trigger] pending(after, after.connected_users@[j], topic).len() == 0 by {
            assert(user_delivered(users[j], after.connected_users@[j], topic, q));
            assert(delivery_result(users[j], topic, q) is Ok);
            assert(last_id_of(users[j].last_id_by_topic@, topic) <= queue_of(before.messages_by_topic@, topic).len());
        }
    }
}

/// Whether some user is named `name`.
pub open spec fn has_user(users: Seq<User>, name: Seq<char>) -> bool {
    exists|i: int| 0 <= i < users.len() && #[trigger] users[i].username@ == name
}

/// The position of the first user named `name`, if any.
pub fn find_user(users: &Vec<User>, name: &str) -> (r: Option<usize>)
    ensures
        match r {
            Some(i) => i < users@.len() && users@[i as int].username@ == name@ && forall|j: int|
                0 <= j < i ==> (#[trigger] users@[j]).username@ != name@,
            None => !has_user(users@, name@),
        },
{
    let mut i: usize = 0;
    while i < users.len()
        invariant
            i <= users@.len(),
            forall|j: int| 0 <= j < i ==> (#[trigger] users@[j]).username@ != name@,
        decreases users@.len() - i,
    {
        if crate::mqtt::mqtt_utils::text::str_equals(users[i].username.as_str(), name) {
            return Some(i);
        }
        i = i + 1;
    }
    None
}

/// A user added by `add_new_user`: active, with no subscriptions.
/// What `add_new_user` does: an active user named `name` with no
/// subscriptions, keeping the will `will`, takes the place of the user of
/// that name, or is added at the end; nothing else changes.
pub open spec fn user_added(before: MQTTServer, after: MQTTServer, name: Seq<char>, will: Option<(Seq<char>, Seq<char>, u8, u8)>) -> bool {
    &&& after.messages_by_topic == before.messages_by_topic
    &&& after.available_packet_id == before.available_packet_id
    &&& has_user(before.connected_users@, name) ==> after.connected_users@.len() == before.connected_users@.len()
    &&& !has_user(before.connected_users@, name) ==> after.connected_users@.len() == before.connected_users@.len() + 1
    &&& forall|j: int| 0 <= j < after.connected_users@.len() ==> if (#[trigger] after.connected_users@[j]).username@ == name {
        fresh_user(after.connected_users@[j], name) && will_view(after.connected_users@[j].will_message) == will
    } else {
        j < before.connected_users@.len() && after.connected_users@[j] == before.connected_users@[j]
    }
    &&& forall|j: int| 0 <= j < before.connected_users@.len() && (#[trigger] before.connected_users@[j]).username@ != name
        ==> after.connected_users@[j] == before.connected_users@[j]
}

/// What `manage_possible_reconnecting_or_duplicate_user` does for a CONNECT
/// from `name`: nothing when no user has that name; an active user of that
/// name is a duplicate and is sent a DISCONNECT; a temporarily disconnected
/// one becomes active and is sent what it missed of its topics (`r` is then
/// `Ok(true)`). No other user changes.
pub open spec fn reconnected_or_duplicate(
    before: MQTTServer,
    after: MQTTServer,
    name: Seq<char>,
    r: Result<bool, MqttError>,
    old_out: Seq<(Seq<char>, Seq<u8>)>,
    new_out: Seq<(Seq<char>, Seq<u8>)>,
) -> bool {
    &&& after.messages_by_topic == before.messages_by_topic
    &&& after.available_packet_id == before.available_packet_id
    &&& after.connected_users@.len() == before.connected_users@.len()
    &&& !has_user(before.connected_users@, name) ==> r == Ok::<bool, MqttError>(false)
        && after.connected_users@ == before.connected_users@ && new_out == old_out
    &&& has_user(before.connected_users@, name) ==> exists|i: int|
        0 <= i < before.connected_users@.len() && (#[trigger] before.connected_users@[i]).username@ == name
            && (forall|j: int| 0 <= j < before.connected_users@.len() && j != i ==> #[trigger] after.connected_users@[j] == before.connected_users@[j])
            && if before.connected_users@[i].state == UserState::Active {
            &&& r == Ok::<bool, MqttError>(false)
            &&& after.connected_users@[i] == before.connected_users@[i]
            &&& new_out == old_out.push((name, seq![0xE0u8]))
        } else {
            let active = User { state: UserState::Active, ..before.connected_users@[i] };
            &&& r == Ok::<bool, MqttError>(true)
            &&& user_caught_up(before.messages_by_topic@, active, after.connected_users@[i], active.topics@, active.topics@.len() as int)
            &&& new_out == old_out + topic_list_writes(before.messages_by_topic@, active, active.topics@, active.topics@.len() as int)
        }
}

pub open spec fn fresh_user(u: User, name: Seq<char>) -> bool {
    &&& u.username@ == name
    &&& u.state == UserState::Active
    &&& u.topics@.len() == 0
    &&& u.last_id_by_topic@.len() == 0
}

proof fn lemma_remove_user_keeps_wf(before: MQTTServer, after: MQTTServer, i: int)
    requires
        server_wf(before),
        0 <= i < before.connected_users@.len(),
        after.messages_by_topic == before.messages_by_topic,
        after.connected_users@ == before.connected_users@.remove(i),
    ensures
        server_wf(after),
{
    let users = before.connected_users@;
    assert forall|a: int, b: int| 0 <= a < b < after.connected_users@.len() implies (#[trigger] after.connected_users@[a]).username@
        != (#[trigger] after.connected_users@[b]).username@ by {
        let a0 = if a < i { a } else { a + 1 };
        let b0 = if b < i { b } else { b + 1 };
        assert(after.connected_users@[a] == users[a0]);
        assert(after.connected_users@[b] == users[b0]);
    }
    assert forall|j: int, t: Seq<char>| 0 <= j < after.connected_users@.len() implies #[trigger] last_id_of(
        after.connected_users@[j].last_id_by_topic@,
        t,
    ) <= queue_of(after.messages_by_topic@, t).len() by {
        let j0 = if j < i { j } else { j + 1 };
        assert(after.connected_users@[j] == users[j0]);
        assert(last_id_of(users[j0].last_id_by_topic@, t) <= queue_of(before.messages_by_topic@, t).len());
    }
    assert forall|j: int, t: Seq<char>|
        0 <= j < after.connected_users@.len() && !has_topic(after.connected_users@[j].topics@, t)
        implies #[trigger] last_id_of(after.connected_users@[j].last_id_by_topic@, t) == 0 by {
        let j0 = if j < i { j } else { j + 1 };
        assert(after.connected_users@[j] == users[j0]);
        assert(!has_topic(users[j0].topics@, t));
        assert(last_id_of(users[j0].last_id_by_topic@, t) == 0);
    }
}

/// The text of each topic.
pub open spec fn topics_text(v: Seq<String>) -> Seq<Seq<char>> {
    v.map_values(|s: String| s@)
}

/// `after` is `before` subscribed, in order, to the topics of `filters`:
/// each gets delivery index 0 unless the user already kept one.
pub open spec fn subscribed_to_filters(before: User, after: User, filters: Seq<(String, u8)>) -> bool {
    &&& after.username == before.username
    &&& after.state == before.state
    &&& after.will_message == before.will_message
    &&& topics_text(after.topics@) == topics_text(before.topics@) + filters.map_values(|f: (String, u8)| f.0@)
    &&& forall|t: Seq<char>|
        #![trigger entry_of(after.last_id_by_topic@, t)]
        entry_of(after.last_id_by_topic@, t) == if entry_of(before.last_id_by_topic@, t) is None && exists|k: int|
            0 <= k < filters.len() && (#[trigger] filters[k]).0@ == t {
            Some(0u32)
        } else {
            entry_of(before.last_id_by_topic@, t)
        }
}

proof fn lemma_subscribed_step(u0: User, ub: User, ua: User, f: Seq<(String, u8)>)
    requires
        f.len() > 0,
        subscribed_to_filters(u0, ub, f.drop_last()),
        ua.username == ub.username,
        ua.state == ub.state,
        ua.will_message == ub.will_message,
        topics_text(ua.topics@) == topics_text(ub.topics@).push(f.last().0@),
        forall|t: Seq<char>|
            #![trigger entry_of(ua.last_id_by_topic@, t)]
            entry_of(ua.last_id_by_topic@, t) == if t == f.last().0@ && entry_of(ub.last_id_by_topic@, t) is None {
                Some(0u32)
            } else {
                entry_of(ub.last_id_by_topic@, t)
            },
    ensures
        subscribed_to_filters(u0, ua, f),
{
    let g = f.drop_last();
    assert(f.map_values(|x: (String, u8)| x.0@) =~= g.map_values(|x: (String, u8)| x.0@).push(f.last().0@));
    assert forall|t: Seq<char>|
        #![trigger entry_of(ua.last_id_by_topic@, t)]
        entry_of(ua.last_id_by_topic@, t) == if entry_of(u0.last_id_by_topic@, t) is None && exists|k: int|
            0 <= k < f.len() && (#[trigger] f[k]).0@ == t {
            Some(0u32)
        } else {
            entry_of(u0.last_id_by_topic@, t)
        } by {
        assert(entry_of(ub.last_id_by_topic@, t) == entry_of(ub.last_id_by_topic@, t));
        if exists|k: int| 0 <= k < g.len() && (#[trigger] g[k]).0@ == t {
            let k = choose|k: int| 0 <= k < g.len() && (#[trigger] g[k]).0@ == t;
            assert(f[k] == g[k]);
        }
        if exists|k: int| 0 <= k < f.len() && (#[trigger] f[k]).0@ == t {
            let k = choose|k: int| 0 <= k < f.len() && (#[trigger] f[k]).0@ == t;
            if k < g.len() {
                assert(g[k] == f[k]);
            }
        }
    }
}

proof fn lemma_subscribe_keeps_wf(before: MQTTServer, after: MQTTServer, i: int, filters: Seq<(String, u8)>)
    requires
        server_wf(before),
        0 <= i < before.connected_users@.len(),
        after.messages_by_topic == before.messages_by_topic,
        after.connected_users@.len() == before.connected_users@.len(),
        forall|j: int| 0 <= j < before.connected_users@.len() && j != i ==> #[trigger] after.connected_users@[j] == before.connected_users@[j],
        subscribed_to_filters(before.connected_users@[i], after.connected_users@[i], filters),
    ensures
        server_wf(after),
{
    let users = before.connected_users@;
    let ub = users[i];
    let ua = after.connected_users@[i];
    assert forall|a: int, b: int| 0 <= a < b < after.connected_users@.len() implies (#[trigger] after.connected_users@[a]).username@
        != (#[trigger] after.connected_users@[b]).username@ by {
        assert(users[a].username@ != users[b].username@);
    }
    assert forall|j: int, t: Seq<char>| 0 <= j < after.connected_users@.len() implies #[trigger] last_id_of(
        after.connected_users@[j].last_id_by_topic@,
        t,
    ) <= queue_of(after.messages_by_topic@, t).len() by {
        assert(last_id_of(users[j].last_id_by_topic@, t) <= queue_of(before.messages_by_topic@, t).len());
    }
    assert forall|j: int, t: Seq<char>|
        0 <= j < after.connected_users@.len() && !has_topic(after.connected_users@[j].topics@, t)
        implies #[trigger] last_id_of(after.connected_users@[j].last_id_by_topic@, t) == 0 by {
        if j == i {
            assert(topics_text(ua.topics@).len() == ua.topics@.len());
            assert(!has_topic(ub.topics@, t)) by {
                if has_topic(ub.topics@, t) {
                    let k = choose|k: int| 0 <= k < ub.topics@.len() && #[trigger] ub.topics@[k]@ == t;
                    assert(topics_text(ua.topics@)[k] == topics_text(ub.topics@)[k]);
                    assert(ua.topics@[k]@ == t);
                }
            }
            assert(last_id_of(ub.last_id_by_topic@, t) == 0);
            if exists|k: int| 0 <= k < filters.len() && (#[trigger] filters[k]).0@ == t {
                let k = choose|k: int| 0 <= k < filters.len() && (#[trigger] filters[k]).0@ == t;
                assert(topics_text(ua.topics@)[ub.topics@.len() + k] == filters[k].0@);
                assert(ua.topics@[ub.topics@.len() + k]@ == t);
            }
        } else {
            assert(!has_topic(users[j].topics@, t));
            assert(last_id_of(users[j].last_id_by_topic@, t) == 0);
        }
    }
}

/// Whether `u` has messages of `topic` yet to receive.
pub open spec fn has_pending(msgs: Seq<(String, Vec<Vec<u8>>)>, u: User, topic: Seq<char>) -> bool {
    has_topic(u.topics@, topic) && last_id_of(u.last_id_by_topic@, topic) < queue_of(msgs, topic).len()
}

/// Whether `topic` is among the first `k` of `list`.
pub open spec fn listed_before(list: Seq<String>, k: int, topic: Seq<char>) -> bool {
    exists|j: int| 0 <= j < k && #[trigger] list[j]@ == topic
}

/// The writes that sending user `u` what it misses of the first `k` topics
/// of `list` makes, each topic once, at its first place in the list.
pub open spec fn topic_list_writes(msgs: Seq<(String, Vec<Vec<u8>>)>, u: User, list: Seq<String>, k: int) -> Seq<(Seq<char>, Seq<u8>)>
    decreases k,
{
    if k <= 0 {
        Seq::empty()
    } else {
        let t = list[k - 1]@;
        topic_list_writes(msgs, u, list, k - 1) + if !listed_before(list, k - 1, t) && has_pending(msgs, u, t)
            && u.state != UserState::TemporallyDisconnected {
            writes_to(u.username@, queue_of(msgs, t).skip(last_id_of(u.last_id_by_topic@, t) as int))
        } else {
            Seq::empty()
        }
    }
}

/// `after` is `before` once sent what it missed of the topics of `list`
/// among its first `k`.
pub open spec fn user_caught_up(msgs: Seq<(String, Vec<Vec<u8>>)>, before: User, after: User, list: Seq<String>, k: int) -> bool {
    &&& after.username == before.username
    &&& after.state == before.state
    &&& after.will_message == before.will_message
    &&& after.topics == before.topics
    &&& forall|t: Seq<char>|
        #![trigger entry_of(after.last_id_by_topic@, t)]
        entry_of(after.last_id_by_topic@, t) == if listed_before(list, k, t) && has_pending(msgs, before, t)
            && before.state != UserState::TemporallyDisconnected {
            Some(queue_of(msgs, t).len() as u32)
        } else {
            entry_of(before.last_id_by_topic@, t)
        }
}

proof fn lemma_caught_up_keeps_wf(before: MQTTServer, after: MQTTServer, i: int, list: Seq<String>)
    requires
        server_wf(before),
        0 <= i < before.connected_users@.len(),
        after.messages_by_topic == before.messages_by_topic,
        after.connected_users@.len() == before.connected_users@.len(),
        forall|j: int| 0 <= j < before.connected_users@.len() && j != i ==> #[trigger] after.connected_users@[j] == before.connected_users@[j],
        user_caught_up(before.messages_by_topic@, before.connected_users@[i], after.connected_users@[i], list, list.len() as int),
    ensures
        server_wf(after),
{
    let users = before.connected_users@;
    assert forall|a: int, b: int| 0 <= a < b < after.connected_users@.len() implies (#[trigger] after.connected_users@[a]).username@
        != (#[trigger] after.connected_users@[b]).username@ by {
        assert(users[a].username@ != users[b].username@);
    }
    assert forall|j: int, t: Seq<char>| 0 <= j < after.connected_users@.len() implies #[trigger] last_id_of(
        after.connected_users@[j].last_id_by_topic@,
        t,
    ) <= queue_of(after.messages_by_topic@, t).len() by {
        assert(last_id_of(users[j].last_id_by_topic@, t) <= queue_of(before.messages_by_topic@, t).len());
    }
    assert forall|j: int, t: Seq<char>|
        0 <= j < after.connected_users@.len() && !has_topic(after.connected_users@[j].topics@, t)
        implies #[trigger] last_id_of(after.connected_users@[j].last_id_by_topic@, t) == 0 by {
        assert(!has_topic(users[j].topics@, t));
        assert(last_id_of(users[j].last_id_by_topic@, t) == 0);
    }
}

/// What `handle_publish_message` does with the PUBLISH `m`: its bytes are
/// kept and distributed for its topic, then, when distribution succeeds,
/// old messages of the topic are trimmed.
pub open spec fn published(
    before: MQTTServer,
    after: MQTTServer,
    m: PublishModel,
    r: Result<(), MqttError>,
    old_out: Seq<(Seq<char>, Seq<u8>)>,
    new_out: Seq<(Seq<char>, Seq<u8>)>,
) -> bool {
    exists|mid: MQTTServer, r1: Result<(), MqttError>|
        #[trigger] distributed(before, mid, m.topic_name, publish_bytes(m), r1, old_out, new_out) && if r1 is Err {
            after == mid && r == r1
        } else {
            trimmed(mid, after, m.topic_name, r)
        }
}

/// The PUBLISH of a will message fits in the bytes `to_bytes` can build:
/// the encrypted payload is padded to the next multiple of 8.
pub open spec fn will_publish_fits(w: WillMessageAndTopic) -> bool {
    2 + text_bytes(w.will_topic@).len() % 256 + 2 + (8 * (text_bytes(w.will_message_content@).len() / 8) + 8) % 256
        + 16 <= 255
}

proof fn lemma_set_active_keeps_wf(before: MQTTServer, after: MQTTServer, i: int)
    requires
        server_wf(before),
        0 <= i < before.connected_users@.len(),
        after.messages_by_topic == before.messages_by_topic,
        after.connected_users@ == before.connected_users@.update(i, User { state: UserState::Active, ..before.connected_users@[i] }),
    ensures
        server_wf(after),
{
    let users = before.connected_users@;
    assert forall|a: int, b: int| 0 <= a < b < after.connected_users@.len() implies (#[trigger] after.connected_users@[a]).username@
        != (#[trigger] after.connected_users@[b]).username@ by {
        assert(users[a].username@ != users[b].username@);
    }
    assert forall|j: int, t: Seq<char>| 0 <= j < after.connected_users@.len() implies #[trigger] last_id_of(
        after.connected_users@[j].last_id_by_topic@,
        t,
    ) <= queue_of(after.messages_by_topic@, t).len() by {
        assert(last_id_of(users[j].last_id_by_topic@, t) <= queue_of(before.messages_by_topic@, t).len());
    }
    assert forall|j: int, t: Seq<char>|
        0 <= j < after.connected_users@.len() && !has_topic(after.connected_users@[j].topics@, t)
        implies #[trigger] last_id_of(after.connected_users@[j].last_id_by_topic@, t) == 0 by {
        assert(!has_topic(users[j].topics@, t));
        assert(last_id_of(users[j].last_id_by_topic@, t) == 0);
    }
}

/// Lists with the same texts list the same topics.
proof fn lemma_same_texts_listed(a: Seq<String>, b: Seq<String>, k: int, t: Seq<char>)
    requires
        topics_text(a) == topics_text(b),
        0 <= k <= a.len(),
    ensures
        listed_before(a, k, t) == listed_before(b, k, t),
{
    assert(a.len() == topics_text(a).len());
    assert(b.len() == topics_text(b).len());
    if listed_before(a, k, t) {
        let j = choose|j: int| 0 <= j < k && #[trigger] a[j]@ == t;
        assert(topics_text(a)[j] == topics_text(b)[j]);
        assert(b[j]@ == t);
    }
    if listed_before(b, k, t) {
        let j = choose|j: int| 0 <= j < k && #[trigger] b[j]@ == t;
        assert(topics_text(a)[j] == topics_text(b)[j]);
        assert(a[j]@ == t);
    }
}

proof fn lemma_same_texts_caught_up(msgs: Seq<(String, Vec<Vec<u8>>)>, before: User, after: User, a: Seq<String>, b: Seq<String>)
    requires
        topics_text(a) == topics_text(b),
        user_caught_up(msgs, before, after, a, a.len() as int),
    ensures
        user_caught_up(msgs, before, after, b, b.len() as int),
{
    assert(a.len() == topics_text(a).len());
    assert(b.len() == topics_text(b).len());
    assert forall|t: Seq<char>| listed_before(a, a.len() as int, t) == listed_before(b, b.len() as int, t) by {
        lemma_same_texts_listed(a, b, a.len() as int, t);
    }
}

proof fn lemma_same_texts_writes(msgs: Seq<(String, Vec<Vec<u8>>)>, u: User, a: Seq<String>, b: Seq<String>, k: int)
    requires
        topics_text(a) == topics_text(b),
        0 <= k <= a.len(),
    ensures
        topic_list_writes(msgs, u, a, k) == topic_list_writes(msgs, u, b, k),
    decreases k,
{
    assert(a.len() == topics_text(a).len());
    assert(b.len() == topics_text(b).len());
    if k > 0 {
        lemma_same_texts_writes(msgs, u, a, b, k - 1);
        assert(topics_text(a)[k - 1] == topics_text(b)[k - 1]);
        lemma_same_texts_listed(a, b, k - 1, a[k - 1]@);
    }
}

/// Copies of the strings of `v`.
pub fn copy_strings(v: &Vec<String>) -> (r: Vec<String>)
    ensures
        topics_text(r@) == topics_text(v@),
{
    let mut r: Vec<String> = Vec::new();
    let mut k: usize = 0;
    while k < v.len()
        invariant
            k <= v@.len(),
            r@.len() == k,
            forall|j: int| 0 <= j < k ==> (#[trigger] r@[j])@ == v@[j]@,
        decreases v@.len() - k,
    {
        r.push(copy_string(&v[k]));
        k = k + 1;
    }
    assert(topics_text(r@) =~= topics_text(v@));
    r
}

/// What `publish_users_will_message` does for user `username`: nothing
/// when there is no such user or it has no will message; otherwise its will
/// message, built as a PUBLISH with dup 0 and packet identifier 1000, is
/// refused or handled as any other PUBLISH.
pub open spec fn will_published(
    before: MQTTServer,
    after: MQTTServer,
    username: Seq<char>,
    r: Result<(), MqttError>,
    old_out: Seq<(Seq<char>, Seq<u8>)>,
    new_out: Seq<(Seq<char>, Seq<u8>)>,
) -> bool {
    &&& !has_user(before.connected_users@, username) ==> r == Ok::<(), MqttError>(()) && after == before && new_out == old_out
    &&& has_user(before.connected_users@, username) ==> exists|i: int|
                0 <= i < before.connected_users@.len() && (#[trigger] before.connected_users@[i]).username@ == username
                    && match before.connected_users@[i].will_message {
                    None => r == Ok::<(), MqttError>(()) && after == before && new_out == old_out,
                    Some(w) => if w.qos > 2 || w.will_retain > 1 {
                        r == Err::<(), MqttError>(MqttError::InvalidPublishFlags) && after == before
                            && new_out == old_out
                    } else if w.qos == 0 {
                        r == Err::<(), MqttError>(MqttError::PacketIdentifierWithQos0) && after == before
                            && new_out == old_out
                    } else {
                        (r == Err::<(), MqttError>(MqttError::ClockBeforeUnixEpoch) && after == before
                            && new_out == old_out) || exists|m: PublishModel|
                            publish_built(m, PublishFlags { dup: 0, qos: w.qos, retain: w.will_retain }, w.will_topic@, Some(1000u16),
                                text_bytes(w.will_message_content@)) && #[trigger] published(before, after, m, r,
                                old_out, new_out)
                    },
                }
}

impl MQTTServer {
    /// A broker with no users and no messages.
    pub fn new() -> (r: Self)
        ensures
            server_wf(r),
            r.connected_users@.len() == 0,
            r.available_packet_id == 0,
            forall|t: Seq<char>| #[trigger] queue_of(r.messages_by_topic@, t).len() == 0,
    {
        MQTTServer { connected_users: Vec::new(), available_packet_id: 0, messages_by_topic: Vec::new() }
    }

    /// Appends `msg` to the messages of `topic`, creating them if needed.
    pub fn add_message_to_topic_messages(&mut self, topic: &String, msg: Vec<u8>)
        ensures
            final(self).connected_users == old(self).connected_users,
            final(self).available_packet_id == old(self).available_packet_id,
            forall|t: Seq<char>|
                #![trigger queue_of(final(self).messages_by_topic@, t)]
                queue_of(final(self).messages_by_topic@, t) == if t == topic@ {
                    queue_of(old(self).messages_by_topic@, t).push(msg@)
                } else {
                    queue_of(old(self).messages_by_topic@, t)
                },
    {
        let ghost before = self.messages_by_topic@;
        let ghost m = msg@;
        match find_entry(&self.messages_by_topic, topic) {
            Some(i) => {
                let mut q: Vec<Vec<u8>> = Vec::new();
                std::mem::swap(&mut q, &mut self.messages_by_topic[i].1);
                let ghost qb = q@;
                assert(qb == before[i as int].1@);
                q.push(msg);
                let entry = (copy_string(topic), q);
                let ghost e = entry;
                self.messages_by_topic.set(i, entry);
                proof {
                    assert(self.messages_by_topic@ =~= before.update(i as int, e));
                    assert forall|t: Seq<char>|
                        #![trigger queue_of(self.messages_by_topic@, t)]
                        queue_of(self.messages_by_topic@, t) == if t == topic@ {
                            queue_of(before, t).push(m)
                        } else {
                            queue_of(before, t)
                        } by {
                        lemma_entry_of_update(before, i as int, e, t);
                        if t == topic@ {
                            assert(e.1@.map_values(|v: Vec<u8>| v@) =~= qb.map_values(|v: Vec<u8>| v@).push(m));
                        }
                    }
                }
            },
            None => {
                let mut q: Vec<Vec<u8>> = Vec::new();
                q.push(msg);
                let entry = (copy_string(topic), q);
                let ghost e = entry;
                self.messages_by_topic.push(entry);
                proof {
                    assert forall|t: Seq<char>|
                        #![trigger queue_of(self.messages_by_topic@, t)]
                        queue_of(self.messages_by_topic@, t) == if t == topic@ {
                            queue_of(before, t).push(m)
                        } else {
                            queue_of(before, t)
                        } by {
                        lemma_entry_of_push(before, e, t);
                        if t == topic@ {
                            assert(e.1@.map_values(|v: Vec<u8>| v@) =~= Seq::<Seq<u8>>::empty().push(m));
                        }
                    }
                }
            },
        }
    }

    /// Sends user `ui` the messages of `topic` it has yet to receive, when it
    /// is subscribed to `topic`, and advances its delivery index to the end.
    /// Refuses a delivery index beyond the messages, and, when there is
    /// something to send, a user that is temporarily disconnected.
    pub fn send_unreceived_messages(&mut self, ui: usize, topic: &String, out: &mut Vec<(String, Vec<u8>)>) -> (r:
        Result<(), MqttError>)
        requires
            ui < old(self).connected_users@.len(),
            queue_of(old(self).messages_by_topic@, topic@).len() <= MAX_TOPIC_MESSAGES,
        ensures
            r == delivery_result(old(self).connected_users@[ui as int], topic@, queue_of(old(self).messages_by_topic@, topic@)),
            delivered(*old(self), *final(self), ui as int, topic@, writes_view(old(out)@), writes_view(final(out)@)),
    {
        let ghost s0 = *self;
        let empty: Vec<Vec<u8>> = Vec::new();
        let qi = find_entry(&self.messages_by_topic, topic);
        let topic_messages: &Vec<Vec<u8>> = match qi {
            Some(i) => &self.messages_by_topic[i].1,
            None => &empty,
        };
        assert(topic_messages@.map_values(|m: Vec<u8>| m@) =~= queue_of(s0.messages_by_topic@, topic@));
        let diff = match check_subscription_and_calculate_diff(&self.connected_users[ui], topic, topic_messages) {
            Ok(d) => d,
            Err(e) => return Err(e),
        };
        if diff < 0 {
            return Ok(());
        }
        let ghost li = last_id_of(s0.connected_users@[ui as int].last_id_by_topic@, topic@);
        let ghost q = queue_of(s0.messages_by_topic@, topic@);
        let res = send_unreceived_messages_to_user(&mut self.connected_users[ui], topic, topic_messages, diff as u32, out);
        proof {
            if diff > 0 {
                assert(q.subrange(li as int, li + diff) =~= q.skip(li as int));
            }
        }
        res
    }

    /// Keeps `msg` among the messages of `topic`, then sends every user, in
    /// order, the messages of `topic` it has yet to receive; stops at the
    /// first user whose delivery fails, with that failure.
    pub fn store_and_distribute_publish_msg(&mut self, topic: &String, msg: Vec<u8>, out: &mut Vec<(String, Vec<u8>)>) -> (r:
        Result<(), MqttError>)
        requires
            queue_of(old(self).messages_by_topic@, topic@).len() < MAX_TOPIC_MESSAGES,
        ensures
            distributed(*old(self), *final(self), topic@, msg@, r, writes_view(old(out)@), writes_view(final(out)@)),
            server_wf(*old(self)) ==> server_wf(*final(self)),
            server_wf(*old(self)) && r is Ok ==> forall|j: int|
                0 <= j < final(self).connected_users@.len() && has_topic(final(self).connected_users@[j].topics@, topic@)
                    ==> #[trigger] pending(*final(self), final(self).connected_users@[j], topic@).len() == 0,
    {
        let ghost users0 = self.connected_users@;
        let ghost out0 = writes_view(out@);
        let ghost s0 = *self;
        let ghost msg_view = msg@;
        self.add_message_to_topic_messages(topic, msg);
        let ghost q = queue_of(self.messages_by_topic@, topic@);
        let ghost s1 = *self;
        proof {
            lemma_first_failure_bounds(users0, topic@, q, 0);
        }
        let ghost k = first_failure_from(users0, topic@, q, 0);
        let mut i: usize = 0;
        let mut res: Result<(), MqttError> = Ok(());
        while i < self.connected_users.len() && res.is_ok()
            invariant
                i <= k <= users0.len(),
                self.messages_by_topic == s1.messages_by_topic,
                self.available_packet_id == s1.available_packet_id,
                self.connected_users@.len() == users0.len(),
                k == first_failure_from(users0, topic@, q, 0),
                q == queue_of(self.messages_by_topic@, topic@),
                q.len() <= MAX_TOPIC_MESSAGES,
                forall|j: int| 0 <= j < k ==> #[trigger] delivery_result(users0[j], topic@, q) is Ok,
                k < users0.len() ==> delivery_result(users0[k], topic@, q) is Err,
                forall|j: int| 0 <= j < i ==> user_delivered(users0[j], #[trigger] self.connected_users@[j], topic@, q),
                forall|j: int| i <= j < users0.len() ==> #[trigger] self.connected_users@[j] == users0[j],
                writes_view(out@) == out0 + delivery_writes_upto(users0, topic@, q, i as int),
                res is Err ==> i == k && k < users0.len() && res == delivery_result(users0[k], topic@, q),
                res is Ok ==> res == Ok::<(), MqttError>(()),
            decreases users0.len() - i, if res is Ok { 1int } else { 0int },
        {
            let ghost before = *self;
            let ghost wb = writes_view(out@);
            res = self.send_unreceived_messages(i, topic, out);
            proof {
                let u = users0[i as int];
                assert(before.connected_users@[i as int] == u);
                if res is Ok {
                    assert(i < k);
                    assert(delivery_writes_upto(users0, topic@, q, i + 1) == delivery_writes_upto(users0, topic@, q, i as int) + if delivery_writes(u, topic@, q) {
                        writes_to(u.username@, q.skip(last_id_of(u.last_id_by_topic@, topic@) as int))
                    } else {
                        Seq::empty()
                    });
                    if !delivery_writes(u, topic@, q) {
                        assert(writes_view(out@) =~= wb + Seq::<(Seq<char>, Seq<u8>)>::empty());
                    }
                }
            }
            if res.is_ok() {
                i = i + 1;
            }
        }
        proof {
            assert(q == queue_of(s1.messages_by_topic@, topic@));
            if res is Ok {
                assert(i == users0.len());
                assert(k == users0.len());
            }
            assert(self.connected_users@.len() == users0.len());
            assert(res == if k < users0.len() { delivery_result(users0[k], topic@, q) } else { Ok(()) });
            assert(forall|j: int| 0 <= j < k ==> user_delivered(users0[j], #[trigger] self.connected_users@[j], topic@, q));
            assert(writes_view(out@) == out0 + delivery_writes_upto(users0, topic@, q, k));
            if server_wf(s0) {
                lemma_distribute_delivers_all(s0, *self, topic@, msg_view, res, out0, writes_view(out@));
            }
        }
        res
    }

    /// The least delivery index for `topic` among the users subscribed to
    /// it, `u32::MAX` when none is; refuses when there are no users at all.
    pub fn calculate_min_last_id_among_users_for(&self, topic: &String) -> (r: Result<u32, MqttError>)
        ensures
            self.connected_users@.len() == 0 ==> r == Err::<u32, MqttError>(MqttError::NoUsers),
            self.connected_users@.len() > 0 ==> r == Ok::<u32, MqttError>(min_last_id(self.connected_users@, topic@)),
    {
        let mut min_last_id: u32 = u32::MAX;
        if self.connected_users.len() == 0 {
            return Err(MqttError::NoUsers);
        }
        let mut i: usize = 0;
        while i < self.connected_users.len()
            invariant
                i <= self.connected_users@.len(),
                min_last_id == min_last_id_upto(self.connected_users@, topic@, i as int),
            decreases self.connected_users@.len() - i,
        {
            let user = &self.connected_users[i];
            if contains_topic(user.get_topics(), topic) {
                let user_last_id = user.get_last_id_by_topic(topic);
                if user_last_id < min_last_id {
                    min_last_id = user_last_id;
                }
            }
            i = i + 1;
        }
        Ok(min_last_id)
    }

    /// Lowers by `min_last_id` the delivery index for `topic` of every user
    /// subscribed to it.
    pub fn update_last_ids_for_users(&mut self, topic: &String, min_last_id: u32)
        requires
            forall|j: int|
                0 <= j < old(self).connected_users@.len() && has_topic(
                    (#[trigger] old(self).connected_users@[j]).topics@,
                    topic@,
                ) ==> min_last_id <= last_id_of(old(self).connected_users@[j].last_id_by_topic@, topic@),
        ensures
            final(self).messages_by_topic == old(self).messages_by_topic,
            final(self).available_packet_id == old(self).available_packet_id,
            final(self).connected_users@.len() == old(self).connected_users@.len(),
            forall|j: int|
                0 <= j < old(self).connected_users@.len() ==> if has_topic(
                    (#[trigger] old(self).connected_users@[j]).topics@,
                    topic@,
                ) {
                    user_with_index(
                        old(self).connected_users@[j],
                        final(self).connected_users@[j],
                        topic@,
                        (last_id_of(old(self).connected_users@[j].last_id_by_topic@, topic@) - min_last_id) as u32,
                    )
                } else {
                    final(self).connected_users@[j] == old(self).connected_users@[j]
                },
    {
        let ghost users0 = self.connected_users@;
        let mut i: usize = 0;
        while i < self.connected_users.len()
            invariant
                i <= users0.len(),
                self.connected_users@.len() == users0.len(),
                self.messages_by_topic == old(self).messages_by_topic,
                self.available_packet_id == old(self).available_packet_id,
                users0 == old(self).connected_users@,
                forall|j: int|
                    0 <= j < users0.len() && has_topic((#[trigger] users0[j]).topics@, topic@) ==> min_last_id
                        <= last_id_of(users0[j].last_id_by_topic@, topic@),
                forall|j: int|
                    0 <= j < i ==> if has_topic((#[trigger] users0[j]).topics@, topic@) {
                        user_with_index(
                            users0[j],
                            self.connected_users@[j],
                            topic@,
                            (last_id_of(users0[j].last_id_by_topic@, topic@) - min_last_id) as u32,
                        )
                    } else {
                        self.connected_users@[j] == users0[j]
                    },
                forall|j: int| i <= j < users0.len() ==> #[trigger] self.connected_users@[j] == users0[j],
            decreases users0.len() - i,
        {
            if contains_topic(self.connected_users[i].get_topics(), topic) {
                let last_id = self.connected_users[i].get_last_id_by_topic(topic);
                let diff = last_id - min_last_id;
                self.connected_users[i].update_last_id_by_topic(topic, diff);
            }
            i = i + 1;
        }
    }

    /// Drops the messages of `topic` that every subscriber has received, once
    /// the topic holds more than `TOPIC_MESSAGES_LEN` of them, keeping each
    /// subscriber's delivery index pointing at the same message. Refuses when
    /// there are no users.
    pub fn remove_old_messages_from_server(&mut self, topic: &String) -> (r: Result<(), MqttError>)
        ensures
            trimmed(*old(self), *final(self), topic@, r),
            server_wf(*old(self)) ==> server_wf(*final(self)),
            server_wf(*old(self)) ==> forall|j: int, t: Seq<char>|
                0 <= j < old(self).connected_users@.len() && has_topic(old(self).connected_users@[j].topics@, t)
                    ==> #[trigger] pending(*final(self), final(self).connected_users@[j], t) == pending(
                    *old(self),
                    old(self).connected_users@[j],
                    t,
                ),
    {
        let ghost s0 = *self;
        let ghost q = queue_of(self.messages_by_topic@, topic@);
        let qi = match find_entry(&self.messages_by_topic, topic) {
            Some(i) => i,
            None => {
                return Ok(());
            },
        };
        if self.messages_by_topic[qi].1.len() <= TOPIC_MESSAGES_LEN {
            return Ok(());
        }
        let min_last_id = match self.calculate_min_last_id_among_users_for(topic) {
            Ok(m) => m,
            Err(e) => return Err(e),
        };
        proof {
            lemma_min_last_id(s0.connected_users@, topic@, s0.connected_users@.len() as int);
        }
        let len = self.messages_by_topic[qi].1.len();
        let n: usize = if (min_last_id as usize) < len { min_last_id as usize } else { len };
        let mut tq: Vec<Vec<u8>> = Vec::new();
        std::mem::swap(&mut tq, &mut self.messages_by_topic[qi].1);
        let ghost tq0 = tq@;
        let rest = tq.split_off(n);
        let entry = (copy_string(topic), rest);
        let ghost e = entry;
        self.messages_by_topic.set(qi, entry);
        proof {
            assert(self.messages_by_topic@ =~= s0.messages_by_topic@.update(qi as int, e));
            assert forall|t: Seq<char>|
                #![trigger queue_of(self.messages_by_topic@, t)]
                queue_of(self.messages_by_topic@, t) == if t == topic@ {
                    q.skip(n as int)
                } else {
                    queue_of(s0.messages_by_topic@, t)
                } by {
                lemma_entry_of_update(s0.messages_by_topic@, qi as int, e, t);
                if t == topic@ {
                    assert(e.1@.map_values(|v: Vec<u8>| v@) =~= q.skip(n as int));
                }
            }
        }
        self.update_last_ids_for_users(topic, min_last_id);
        proof {
            if server_wf(s0) {
                lemma_trim_keeps_pending(s0, *self, topic@, Ok(()));
            }
        }
        Ok(())
    }

    /// The users.
    pub fn get_connected_users(&self) -> (r: &Vec<User>)
        ensures
            r@ == self.connected_users@,
    {
        &self.connected_users
    }

    /// Adds an active user named `username` with no subscriptions, keeping the
    /// will message of its CONNECT; it takes the place of a user of that name.
    pub fn add_new_user(&mut self, username: &str, connect_msg: &ConnectMessage)
        requires
            server_wf(*old(self)),
        ensures
            server_wf(*final(self)),
            user_added(*old(self), *final(self), username@, connect_will(*connect_msg)),
    {
        let will_msg_info = connect_msg.get_will_to_publish();
        let user = User::new(username.to_string(), will_msg_info);
        let ghost u = user;
        let ghost s0 = *self;
        match find_user(&self.connected_users, username) {
            Some(i) => {
                self.connected_users.set(i, user);
                proof {
                    assert forall|j: int| 0 <= j < s0.connected_users@.len() && j != i implies (#[trigger] s0.connected_users@[j]).username@ != username@ by {
                        if j > i {
                            assert(s0.connected_users@[i as int].username@ != s0.connected_users@[j].username@);
                        }
                    }
                }
            },
            None => {
                self.connected_users.push(user);
            },
        }
        proof {
            assert forall|j: int, t: Seq<char>| 0 <= j < self.connected_users@.len() implies #[trigger] last_id_of(
                self.connected_users@[j].last_id_by_topic@,
                t,
            ) <= queue_of(self.messages_by_topic@, t).len() by {
                if self.connected_users@[j].username@ != username@ {
                    assert(self.connected_users@[j] == s0.connected_users@[j]);
                } else {
                    assert(entry_of(u.last_id_by_topic@, t) is None);
                }
            }
            assert forall|j: int, t: Seq<char>|
                0 <= j < self.connected_users@.len() && !has_topic(self.connected_users@[j].topics@, t)
                implies #[trigger] last_id_of(self.connected_users@[j].last_id_by_topic@, t) == 0 by {
                if self.connected_users@[j].username@ != username@ {
                    assert(self.connected_users@[j] == s0.connected_users@[j]);
                } else {
                    assert(entry_of(u.last_id_by_topic@, t) is None);
                }
            }
        }
    }

    /// Removes the user named `username`, if any.
    pub fn remove_user(&mut self, username: &str)
        requires
            server_wf(*old(self)),
        ensures
            server_wf(*final(self)),
            final(self).messages_by_topic == old(self).messages_by_topic,
            final(self).available_packet_id == old(self).available_packet_id,
            !has_user(final(self).connected_users@, username@),
            has_user(old(self).connected_users@, username@) ==> exists|i: int|
                0 <= i < old(self).connected_users@.len() && (#[trigger] old(self).connected_users@[i]).username@ == username@
                    && final(self).connected_users@ == old(self).connected_users@.remove(i),
            !has_user(old(self).connected_users@, username@) ==> final(self).connected_users@ == old(self).connected_users@,
    {
        let ghost s0 = *self;
        if let Some(i) = find_user(&self.connected_users, username) {
            self.connected_users.remove(i);
            proof {
                lemma_remove_user_keeps_wf(s0, *self, i as int);
                let users = s0.connected_users@;
                assert forall|k: int| 0 <= k < self.connected_users@.len() implies (#[trigger] self.connected_users@[k]).username@ != username@ by {
                    if k < i { assert(self.connected_users@[k] == users[k]); } else {
                        assert(self.connected_users@[k] == users[k + 1]);
                        assert(users[i as int].username@ != users[k + 1].username@);
                    }
                }
            }
        }
    }

    /// Marks the user named `username`, if any, as temporarily disconnected,
    /// so that nothing more is written to it.
    pub fn set_user_as_temporally_disconnected(&mut self, username: &str) -> (r: Result<(), MqttError>)
        requires
            server_wf(*old(self)),
        ensures
            r is Ok,
            server_wf(*final(self)),
            final(self).messages_by_topic == old(self).messages_by_topic,
            final(self).available_packet_id == old(self).available_packet_id,
            final(self).connected_users@.len() == old(self).connected_users@.len(),
            forall|j: int| 0 <= j < old(self).connected_users@.len() ==> if (#[trigger] old(self).connected_users@[j]).username@ == username@ {
                final(self).connected_users@[j].state == UserState::TemporallyDisconnected
                    && final(self).connected_users@[j].username == old(self).connected_users@[j].username
                    && final(self).connected_users@[j].will_message == old(self).connected_users@[j].will_message
                    && final(self).connected_users@[j].topics == old(self).connected_users@[j].topics
                    && final(self).connected_users@[j].last_id_by_topic == old(self).connected_users@[j].last_id_by_topic
            } else {
                final(self).connected_users@[j] == old(self).connected_users@[j]
            },
    {
        let ghost s0 = *self;
        if let Some(i) = find_user(&self.connected_users, username) {
            self.connected_users[i].set_state(UserState::TemporallyDisconnected);
            proof {
                assert forall|j: int| 0 <= j < s0.connected_users@.len() && j != i implies (#[trigger] s0.connected_users@[j]).username@ != username@ by {
                    if j > i {
                        assert(s0.connected_users@[i as int].username@ != s0.connected_users@[j].username@);
                    }
                }
                assert forall|a: int, b: int| 0 <= a < b < self.connected_users@.len() implies (#[trigger] self.connected_users@[a]).username@
                    != (#[trigger] self.connected_users@[b]).username@ by {
                    assert(s0.connected_users@[a].username@ != s0.connected_users@[b].username@);
                }
                assert forall|j: int, t: Seq<char>| 0 <= j < self.connected_users@.len() implies #[trigger] last_id_of(
                    self.connected_users@[j].last_id_by_topic@,
                    t,
                ) <= queue_of(self.messages_by_topic@, t).len() by {
                    assert(last_id_of(s0.connected_users@[j].last_id_by_topic@, t) <= queue_of(self.messages_by_topic@, t).len());
                }
                assert forall|j: int, t: Seq<char>|
                    0 <= j < self.connected_users@.len() && !has_topic(self.connected_users@[j].topics@, t)
                    implies #[trigger] last_id_of(self.connected_users@[j].last_id_by_topic@, t) == 0 by {
                    assert(!has_topic(s0.connected_users@[j].topics@, t));
                    assert(last_id_of(s0.connected_users@[j].last_id_by_topic@, t) == 0);
                }
            }
        }
        Ok(())
    }

    /// Writes `bytes` to user `ui`; refuses a user that is temporarily
    /// disconnected.
    pub fn write_message(&self, ui: usize, bytes: Vec<u8>, out: &mut Vec<(String, Vec<u8>)>) -> (r: Result<(), MqttError>)
        requires
            ui < self.connected_users@.len(),
        ensures
            self.connected_users@[ui as int].state == UserState::TemporallyDisconnected ==> r == Err::<(), MqttError>(
                MqttError::UserNotConnected,
            ) && writes_view(final(out)@) == writes_view(old(out)@),
            self.connected_users@[ui as int].state != UserState::TemporallyDisconnected ==> r == Ok::<(), MqttError>(())
                && writes_view(final(out)@) == writes_view(old(out)@).push((self.connected_users@[ui as int].username@, bytes@)),
    {
        if self.connected_users[ui].is_not_disconnected() {
            let ghost w0 = writes_view(out@);
            out.push((self.connected_users[ui].get_username(), bytes));
            assert(writes_view(out@) =~= w0.push((self.connected_users@[ui as int].username@, bytes@)));
            return Ok(());
        }
        Err(MqttError::UserNotConnected)
    }

    /// Sends user `client_id`, if there is one, the SUBACK with packet
    /// identifier 0 and the given return codes.
    pub fn send_suback_to(&self, client_id: &str, return_codes: &Vec<SubscribeReturnCode>, out: &mut Vec<(String, Vec<u8>)>) -> (r:
        Result<(), MqttError>)
        requires
            return_codes@.len() <= 126,
        ensures
            ({
                let ack = SubAckModel { message_type: 9, reserved_flags: 0, packet_identifier: 0, return_codes: return_codes@ };
                if has_user(self.connected_users@, client_id@) {
                    exists|i: int|
                        0 <= i < self.connected_users@.len() && (#[trigger] self.connected_users@[i]).username@ == client_id@
                            && if self.connected_users@[i].state == UserState::TemporallyDisconnected {
                            r == Err::<(), MqttError>(MqttError::UserNotConnected) && writes_view(final(out)@) == writes_view(old(out)@)
                        } else {
                            r == Ok::<(), MqttError>(()) && writes_view(final(out)@) == writes_view(old(out)@).push((client_id@, suback_bytes(ack)))
                        }
                } else {
                    r == Ok::<(), MqttError>(()) && writes_view(final(out)@) == writes_view(old(out)@)
                }
            }),
    {
        let mut codes: Vec<SubscribeReturnCode> = Vec::new();
        let mut k: usize = 0;
        while k < return_codes.len()
            invariant
                k <= return_codes@.len(),
                codes@ == return_codes@.subrange(0, k as int),
            decreases return_codes@.len() - k,
        {
            codes.push(return_codes[k]);
            k = k + 1;
            assert(codes@ =~= return_codes@.subrange(0, k as int));
        }
        assert(return_codes@.subrange(0, k as int) =~= return_codes@);
        let ack = SubAckMessage::new(0, codes);
        let ack_msg_bytes = ack.to_bytes();
        match find_user(&self.connected_users, client_id) {
            Some(i) => self.write_message(i, ack_msg_bytes, out),
            None => Ok(()),
        }
    }

    /// Sends user `client_id`, if there is one, the PUBACK (reason code 0) for
    /// `msg`, with its packet identifier, 0 when it has none.
    pub fn send_puback_to(&self, client_id: &str, msg: &PublishMessage, out: &mut Vec<(String, Vec<u8>)>) -> (r: Result<
        (),
        MqttError,
    >)
        ensures
            ({
                let ack = PubAckMessage {
                    tipo: 4,
                    packet_id: match msg.variable_header.packet_identifier {
                        Some(id) => id,
                        None => 0,
                    },
                    puback_reason_code: 0,
                };
                if has_user(self.connected_users@, client_id@) {
                    exists|i: int|
                        0 <= i < self.connected_users@.len() && (#[trigger] self.connected_users@[i]).username@ == client_id@
                            && if self.connected_users@[i].state == UserState::TemporallyDisconnected {
                            r == Err::<(), MqttError>(MqttError::UserNotConnected) && writes_view(final(out)@) == writes_view(old(out)@)
                        } else {
                            r == Ok::<(), MqttError>(()) && writes_view(final(out)@) == writes_view(old(out)@).push((client_id@, puback_bytes(ack)))
                        }
                } else {
                    r == Ok::<(), MqttError>(()) && writes_view(final(out)@) == writes_view(old(out)@)
                }
            }),
    {
        let packet_id = match msg.get_packet_id() {
            Some(id) => id,
            None => 0,
        };
        let ack = PubAckMessage::new(packet_id, 0);
        let ack_msg_bytes = ack.to_bytes();
        match find_user(&self.connected_users, client_id) {
            Some(i) => self.write_message(i, ack_msg_bytes, out),
            None => Ok(()),
        }
    }

    /// Subscribes user `username`, if there is one, to each topic filter of
    /// `msg`, answering each with qos 1.
    pub fn add_topics_to_subscriber(&mut self, username: &str, msg: &SubscribeMessage) -> (r: Result<
        Vec<SubscribeReturnCode>,
        MqttError,
    >)
        requires
            server_wf(*old(self)),
        ensures
            server_wf(*final(self)),
            final(self).messages_by_topic == old(self).messages_by_topic,
            final(self).available_packet_id == old(self).available_packet_id,
            final(self).connected_users@.len() == old(self).connected_users@.len(),
            r matches Ok(codes) && (forall|k: int| 0 <= k < codes@.len() ==> #[trigger] codes@[k] == SubscribeReturnCode::QoS1)
                && codes@.len() == if has_user(old(self).connected_users@, username@) { msg.topic_filters@.len() } else { 0 },
            forall|j: int| 0 <= j < old(self).connected_users@.len() ==> if (#[trigger] old(self).connected_users@[j]).username@ == username@ {
                subscribed_to_filters(old(self).connected_users@[j], final(self).connected_users@[j], msg.topic_filters@)
            } else {
                final(self).connected_users@[j] == old(self).connected_users@[j]
            },
    {
        let ghost s0 = *self;
        let mut return_codes: Vec<SubscribeReturnCode> = Vec::new();
        match find_user(&self.connected_users, username) {
            None => {
                return Ok(return_codes);
            },
            Some(i) => {
                let ghost u0 = self.connected_users@[i as int];
                let filters = msg.get_topic_filters();
                let mut k: usize = 0;
                while k < filters.len()
                    invariant
                        k <= filters@.len(),
                        filters@ == msg.topic_filters@,
                        i < self.connected_users@.len(),
                        self.connected_users@.len() == s0.connected_users@.len(),
                        u0 == s0.connected_users@[i as int],
                        self.messages_by_topic == s0.messages_by_topic,
                        self.available_packet_id == s0.available_packet_id,
                        forall|j: int| 0 <= j < s0.connected_users@.len() && j != i ==> #[trigger] self.connected_users@[j] == s0.connected_users@[j],
                        subscribed_to_filters(u0, self.connected_users@[i as int], filters@.subrange(0, k as int)),
                        return_codes@.len() == k,
                        forall|m: int| 0 <= m < k ==> #[trigger] return_codes@[m] == SubscribeReturnCode::QoS1,
                    decreases filters@.len() - k,
                {
                    let topic = copy_string(&filters[k].0);
                    let ghost ub = self.connected_users@[i as int];
                    let ghost tv = topic@;
                    self.connected_users[i].add_topic(topic);
                    assert(topics_text(self.connected_users@[i as int].topics@) =~= topics_text(ub.topics@).push(tv));
                    return_codes.push(SubscribeReturnCode::QoS1);
                    proof {
                        let f = filters@.subrange(0, k + 1);
                        assert(f.subrange(0, k as int) =~= filters@.subrange(0, k as int));
                        assert(f.last().0@ == filters@[k as int].0@);
                        lemma_subscribed_step(u0, ub, self.connected_users@[i as int], f);
                    }
                    k = k + 1;
                }
                assert(filters@.subrange(0, k as int) =~= msg.topic_filters@);
                proof {
                    assert forall|j: int| 0 <= j < s0.connected_users@.len() && j != i implies (#[trigger] s0.connected_users@[j]).username@ != username@ by {
                        if j > i {
                            assert(s0.connected_users@[i as int].username@ != s0.connected_users@[j].username@);
                        }
                    }
                    lemma_subscribe_keeps_wf(s0, *self, i as int, msg.topic_filters@);
                }
                Ok(return_codes)
            },
        }
    }

    /// Sends user `ui` what it misses of each topic of `topics`, in order;
    /// refuses, when the user is temporarily disconnected, at the first topic
    /// with messages it misses.
    pub fn send_unreceived_for_topics(&mut self, ui: usize, topics: &Vec<String>, out: &mut Vec<(String, Vec<u8>)>) -> (r:
        Result<(), MqttError>)
        requires
            server_wf(*old(self)),
            ui < old(self).connected_users@.len(),
        ensures
            ({
                let u = old(self).connected_users@[ui as int];
                let msgs = old(self).messages_by_topic@;
                let blocked = u.state == UserState::TemporallyDisconnected && exists|k: int|
                    0 <= k < topics@.len() && has_pending(msgs, u, (#[trigger] topics@[k])@);
                &&& final(self).messages_by_topic == old(self).messages_by_topic
                &&& final(self).available_packet_id == old(self).available_packet_id
                &&& final(self).connected_users@.len() == old(self).connected_users@.len()
                &&& forall|j: int| 0 <= j < old(self).connected_users@.len() && j != ui ==> #[trigger] final(self).connected_users@[j] == old(self).connected_users@[j]
                &&& if blocked {
                    &&& r == Err::<(), MqttError>(MqttError::UserNotConnected)
                    &&& final(self).connected_users@[ui as int] == u
                    &&& writes_view(final(out)@) == writes_view(old(out)@)
                } else {
                    &&& r == Ok::<(), MqttError>(())
                    &&& user_caught_up(msgs, u, final(self).connected_users@[ui as int], topics@, topics@.len() as int)
                    &&& writes_view(final(out)@) == writes_view(old(out)@) + topic_list_writes(msgs, u, topics@, topics@.len() as int)
                }
            }),
            server_wf(*final(self)),
    {
        let ghost s0 = *self;
        let ghost u0 = self.connected_users@[ui as int];
        let ghost msgs = self.messages_by_topic@;
        let ghost out0 = writes_view(out@);
        let mut k: usize = 0;
        let mut res: Result<(), MqttError> = Ok(());
        while k < topics.len() && res.is_ok()
            invariant
                k <= topics@.len(),
                server_wf(s0),
                ui < s0.connected_users@.len(),
                u0 == s0.connected_users@[ui as int],
                msgs == s0.messages_by_topic@,
                self.messages_by_topic == s0.messages_by_topic,
                self.available_packet_id == s0.available_packet_id,
                self.connected_users@.len() == s0.connected_users@.len(),
                forall|j: int| 0 <= j < s0.connected_users@.len() && j != ui ==> #[trigger] self.connected_users@[j] == s0.connected_users@[j],
                res is Ok ==> res == Ok::<(), MqttError>(()),
                u0.state == UserState::TemporallyDisconnected ==> self.connected_users@[ui as int] == u0 && writes_view(out@) == out0,
                res is Ok ==> forall|j: int| 0 <= j < k ==> !(u0.state == UserState::TemporallyDisconnected && has_pending(msgs, u0, (#[trigger] topics@[j])@)),
                res is Ok ==> user_caught_up(msgs, u0, self.connected_users@[ui as int], topics@, k as int),
                res is Ok ==> writes_view(out@) == out0 + topic_list_writes(msgs, u0, topics@, k as int),
                res is Err ==> k < topics@.len() && res == Err::<(), MqttError>(MqttError::UserNotConnected)
                    && u0.state == UserState::TemporallyDisconnected && has_pending(msgs, u0, topics@[k as int]@)
                    && self.connected_users@[ui as int] == u0 && writes_view(out@) == out0,
            decreases topics@.len() - k, if res is Ok { 1int } else { 0int },
        {
            let ghost sb = *self;
            let ghost ub = self.connected_users@[ui as int];
            let ghost wb = writes_view(out@);
            let ghost t = topics@[k as int]@;
            proof {
                assert(last_id_of(u0.last_id_by_topic@, t) <= queue_of(msgs, t).len());
                assert(queue_of(msgs, t).len() <= MAX_TOPIC_MESSAGES);
                if u0.state == UserState::TemporallyDisconnected {
                    assert(!listed_before(topics@, k as int, t) || !has_pending(msgs, u0, t)) by {
                        if listed_before(topics@, k as int, t) && has_pending(msgs, u0, t) {
                            let j = choose|j: int| 0 <= j < k && #[trigger] topics@[j]@ == t;
                            assert(!(u0.state == UserState::TemporallyDisconnected && has_pending(msgs, u0, topics@[j]@)));
                        }
                    }
                }
            }
            res = self.send_unreceived_messages(ui, &topics[k], out);
            proof {
                let li0 = last_id_of(u0.last_id_by_topic@, t);
                let q = queue_of(msgs, t);
                if listed_before(topics@, k as int, t) && has_pending(msgs, u0, t) && u0.state != UserState::TemporallyDisconnected {
                    assert(last_id_of(ub.last_id_by_topic@, t) == q.len());
                } else {
                    assert(last_id_of(ub.last_id_by_topic@, t) == li0);
                }
                if res is Ok {
                    let kk = k + 1;
                    assert(topic_list_writes(msgs, u0, topics@, kk as int) == topic_list_writes(msgs, u0, topics@, k as int) + if !listed_before(topics@, k as int, t) && has_pending(msgs, u0, t)
                        && u0.state != UserState::TemporallyDisconnected {
                        writes_to(u0.username@, q.skip(li0 as int))
                    } else {
                        Seq::empty()
                    });
                    assert forall|tt: Seq<char>| listed_before(topics@, kk as int, tt) <==> (listed_before(topics@, k as int, tt) || tt == t) by {
                        if listed_before(topics@, kk as int, tt) {
                            let j = choose|j: int| 0 <= j < kk && #[trigger] topics@[j]@ == tt;
                            if j < k { assert(listed_before(topics@, k as int, tt)); }
                        }
                        if tt == t { assert(topics@[k as int]@ == tt); }
                        if listed_before(topics@, k as int, tt) {
                            let j = choose|j: int| 0 <= j < k && #[trigger] topics@[j]@ == tt;
                            assert(0 <= j < kk);
                        }
                    }
                    if !delivery_writes(ub, t, q) {
                        assert(writes_view(out@) =~= wb + Seq::<(Seq<char>, Seq<u8>)>::empty());
                    }
                    assert forall|j: int| 0 <= j < kk implies !(u0.state == UserState::TemporallyDisconnected && has_pending(msgs, u0, (#[trigger] topics@[j])@)) by {
                        if j == k {
                            assert(delivery_result(ub, t, q) is Ok);
                        }
                    }
                }
            }
            if res.is_ok() {
                k = k + 1;
            }
        }
        proof {
            let blocked = u0.state == UserState::TemporallyDisconnected && exists|j: int|
                0 <= j < topics@.len() && has_pending(msgs, u0, (#[trigger] topics@[j])@);
            if res is Ok {
                assert(k == topics@.len());
                if blocked {
                    let j = choose|j: int| 0 <= j < topics@.len() && has_pending(msgs, u0, (#[trigger] topics@[j])@);
                    assert(!(u0.state == UserState::TemporallyDisconnected && has_pending(msgs, u0, topics@[j]@)));
                }
                lemma_caught_up_keeps_wf(s0, *self, ui as int, topics@);
            } else {
                assert(has_pending(msgs, u0, topics@[k as int]@));
                lemma_caught_up_keeps_wf(s0, *self, ui as int, topics@);
            }
        }
        res
    }

    /// Keeps the PUBLISH `msg` among the messages of its topic and sends it,
    /// with anything else they miss of the topic, to the users subscribed to
    /// it; then trims the topic's old messages.
    pub fn handle_publish_message(&mut self, msg: &PublishMessage, out: &mut Vec<(String, Vec<u8>)>) -> (r: Result<(), MqttError>)
        requires
            server_wf(*old(self)),
            publish_fits(msg@),
            queue_of(old(self).messages_by_topic@, msg@.topic_name).len() < MAX_TOPIC_MESSAGES,
        ensures
            published(*old(self), *final(self), msg@, r, writes_view(old(out)@), writes_view(final(out)@)),
            server_wf(*final(self)),
            r is Ok ==> forall|j: int|
                0 <= j < final(self).connected_users@.len() && has_topic(final(self).connected_users@[j].topics@, msg@.topic_name)
                    ==> #[trigger] pending(*final(self), final(self).connected_users@[j], msg@.topic_name).len() == 0,
    {
        let ghost s0 = *self;
        let ghost out0 = writes_view(out@);
        let topic = msg.get_topic();
        let bytes = msg.to_bytes();
        let res = self.store_and_distribute_publish_msg(&topic, bytes, out);
        let ghost mid = *self;
        if res.is_err() {
            assert(distributed(s0, mid, msg@.topic_name, publish_bytes(msg@), res, out0, writes_view(out@)));
            return res;
        }
        let r = self.remove_old_messages_from_server(&topic);
        proof {
            assert(distributed(s0, mid, msg@.topic_name, publish_bytes(msg@), res, out0, writes_view(out@)));
            lemma_trim_keeps_pending(mid, *self, topic@, r);
            if r is Ok {
                assert forall|j: int|
                    0 <= j < self.connected_users@.len() && has_topic(self.connected_users@[j].topics@, msg@.topic_name)
                    implies #[trigger] pending(*self, self.connected_users@[j], msg@.topic_name).len() == 0 by {
                    assert(pending(*self, self.connected_users@[j], topic@) == pending(mid, mid.connected_users@[j], topic@));
                    if queue_of(mid.messages_by_topic@, topic@).len() > TOPIC_MESSAGES_LEN && mid.connected_users@.len() > 0 {
                        if has_topic(mid.connected_users@[j].topics@, topic@) {
                        } else {
                            assert(self.connected_users@[j] == mid.connected_users@[j]);
                        }
                    }
                }
            }
        }
        r
    }

    /// Answers a CONNECT from `client_id` when a user of that name exists: an
    /// active one is a duplicate and is sent a DISCONNECT; a temporarily
    /// disconnected one is reconnecting, becomes active and is sent what it
    /// missed of each of its topics. Whether it was a reconnection.
    pub fn manage_possible_reconnecting_or_duplicate_user(&mut self, client_id: &str, out: &mut Vec<(String, Vec<u8>)>) -> (r:
        Result<bool, MqttError>)
        requires
            server_wf(*old(self)),
        ensures
            server_wf(*final(self)),
            reconnected_or_duplicate(*old(self), *final(self), client_id@, r, writes_view(old(out)@), writes_view(final(out)@)),
    {
        let ghost s0 = *self;
        match find_user(&self.connected_users, client_id) {
            None => Ok(false),
            Some(i) => {
                if self.connected_users[i].state == UserState::Active {
                    let msg = DisconnectMessage::new();
                    let res = self.write_message(i, msg.to_bytes(), out);
                    proof {
                        assert(disconnect_bytes(msg) == seq![0xE0u8]) by {
                            assert((14u8 << 4u8) | 0u8 == 0xE0u8) by (bit_vector);
                        }
                    }
                    proof {
                        assert(s0.connected_users@[i as int].username@ == client_id@);
                        assert(self.connected_users@ == s0.connected_users@);
                        assert(forall|j: int| 0 <= j < s0.connected_users@.len() && j != i ==> #[trigger] self.connected_users@[j] == s0.connected_users@[j]);
                    }
                    match res {
                        Ok(()) => Ok(false),
                        Err(e) => Err(e),
                    }
                } else {
                    self.connected_users[i].set_state(UserState::Active);
                    let ghost s1 = *self;
                    proof {
                        assert(self.connected_users@[i as int] == User { state: UserState::Active, ..s0.connected_users@[i as int] });
                        lemma_set_active_keeps_wf(s0, s1, i as int);
                    }
                    let topics = copy_strings(self.connected_users[i].get_topics());
                    let res = self.send_unreceived_for_topics(i, &topics, out);
                    proof {
                        let active = s1.connected_users@[i as int];
                        assert(!(active.state == UserState::TemporallyDisconnected));
                        lemma_same_texts_caught_up(s1.messages_by_topic@, active, self.connected_users@[i as int], topics@, active.topics@);
                        lemma_same_texts_writes(s1.messages_by_topic@, active, topics@, active.topics@, topics@.len() as int);
                        assert(topics_text(topics@).len() == topics@.len());
                        assert(topics_text(active.topics@).len() == active.topics@.len());
                        assert(s0.connected_users@[i as int].username@ == client_id@);
                        assert(s0.connected_users@[i as int].state != UserState::Active);
                        assert(forall|j: int| 0 <= j < s0.connected_users@.len() && j != i ==> #[trigger] self.connected_users@[j] == s0.connected_users@[j]);
                    }
                    match res {
                        Ok(()) => Ok(true),
                        Err(e) => Err(e),
                    }
                }
            },
        }
    }

    /// Sends user `username`, if there is one, what it misses of each topic
    /// filter of `msg`, in order: the messages published before it subscribed.
    /// Refuses, when the user is temporarily disconnected, at the first topic
    /// with messages it misses.
    pub fn send_preexisting_msgs_to_new_subscriber(&mut self, username: &str, msg: &SubscribeMessage, out: &mut Vec<(String, Vec<u8>)>) -> (r:
        Result<(), MqttError>)
        requires
            server_wf(*old(self)),
        ensures
            server_wf(*final(self)),
            final(self).messages_by_topic == old(self).messages_by_topic,
            final(self).available_packet_id == old(self).available_packet_id,
            final(self).connected_users@.len() == old(self).connected_users@.len(),
            !has_user(old(self).connected_users@, username@) ==> r == Ok::<(), MqttError>(())
                && final(self).connected_users@ == old(self).connected_users@ && writes_view(final(out)@) == writes_view(old(out)@),
            has_user(old(self).connected_users@, username@) ==> exists|i: int|
                0 <= i < old(self).connected_users@.len() && (#[trigger] old(self).connected_users@[i]).username@ == username@
                    && (forall|j: int| 0 <= j < old(self).connected_users@.len() && j != i ==> #[trigger] final(self).connected_users@[j] == old(self).connected_users@[j])
                    && ({
                    let u = old(self).connected_users@[i];
                    let msgs = old(self).messages_by_topic@;
                    let list = msg.topic_filters@.map_values(|f: (String, u8)| f.0);
                    let blocked = u.state == UserState::TemporallyDisconnected && exists|k: int|
                        0 <= k < list.len() && has_pending(msgs, u, (#[trigger] list[k])@);
                    if blocked {
                        &&& r == Err::<(), MqttError>(MqttError::UserNotConnected)
                        &&& final(self).connected_users@[i] == u
                        &&& writes_view(final(out)@) == writes_view(old(out)@)
                    } else {
                        &&& r == Ok::<(), MqttError>(())
                        &&& user_caught_up(msgs, u, final(self).connected_users@[i], list, list.len() as int)
                        &&& writes_view(final(out)@) == writes_view(old(out)@) + topic_list_writes(msgs, u, list, list.len() as int)
                    }
                }),
    {
        let ghost s0 = *self;
        match find_user(&self.connected_users, username) {
            None => Ok(()),
            Some(i) => {
                let filters = msg.get_topic_filters();
                let mut topics: Vec<String> = Vec::new();
                let mut k: usize = 0;
                while k < filters.len()
                    invariant
                        k <= filters@.len(),
                        filters@ == msg.topic_filters@,
                        topics@.len() == k,
                        forall|j: int| 0 <= j < k ==> (#[trigger] topics@[j])@ == filters@[j].0@,
                    decreases filters@.len() - k,
                {
                    topics.push(copy_string(&filters[k].0));
                    k = k + 1;
                }
                let ghost list = msg.topic_filters@.map_values(|f: (String, u8)| f.0);
                assert(topics_text(topics@) =~= topics_text(list));
                let res = self.send_unreceived_for_topics(i, &topics, out);
                proof {
                    let u = s0.connected_users@[i as int];
                    let msgs = s0.messages_by_topic@;
                    assert(topics_text(topics@).len() == topics@.len());
                    assert(topics_text(list).len() == list.len());
                    assert((exists|k: int| 0 <= k < topics@.len() && has_pending(msgs, u, (#[trigger] topics@[k])@))
                        == (exists|k: int| 0 <= k < list.len() && has_pending(msgs, u, (#[trigger] list[k])@))) by {
                        if exists|k: int| 0 <= k < topics@.len() && has_pending(msgs, u, (#[trigger] topics@[k])@) {
                            let k = choose|k: int| 0 <= k < topics@.len() && has_pending(msgs, u, (#[trigger] topics@[k])@);
                            assert(topics_text(topics@)[k] == topics_text(list)[k]);
                            assert(has_pending(msgs, u, list[k]@));
                        }
                        if exists|k: int| 0 <= k < list.len() && has_pending(msgs, u, (#[trigger] list[k])@) {
                            let k = choose|k: int| 0 <= k < list.len() && has_pending(msgs, u, (#[trigger] list[k])@);
                            assert(topics_text(topics@)[k] == topics_text(list)[k]);
                            assert(has_pending(msgs, u, topics@[k]@));
                        }
                    }
                    if res is Ok {
                        lemma_same_texts_caught_up(msgs, u, self.connected_users@[i as int], topics@, list);
                        lemma_same_texts_writes(msgs, u, topics@, list, topics@.len() as int);
                    }
                    assert(u.username@ == username@);
                }
                res
            },
        }
    }

    /// Publishes the will message of user `username`, if it has one, as a
    /// PUBLISH with dup 0, the will qos and retain flag, and packet identifier
    /// 1000, handled as any other PUBLISH. Refuses will flags out of range, a
    /// will qos of 0, and a clock before the Unix epoch.
    pub fn publish_users_will_message(&mut self, username: &str, out: &mut Vec<(String, Vec<u8>)>) -> (r: Result<(), MqttError>)
        requires
            server_wf(*old(self)),
            old(self).will_can_be_published(username@),
        ensures
            server_wf(*final(self)),
            will_published(*old(self), *final(self), username@, r, writes_view(old(out)@), writes_view(final(out)@)),
    {
        let packet_id: u16 = 1000;
        let ghost s0 = *self;
        let ghost out0 = writes_view(out@);
        match find_user(&self.connected_users, username) {
            None => Ok(()),
            Some(i) => {
                let will = self.connected_users[i].get_publish_message_with(0, packet_id);
                match will {
                    Err(e) => Err(e),
                    Ok(None) => Ok(()),
                    Ok(Some(m)) => {
                        proof {
                            let w = s0.connected_users@[i as int].will_message->0;
                            assert(will_publish_fits(w));
                            assert(publish_fits(m@));
                        }
                        let res = self.handle_publish_message(&m, out);
                        proof {
                            let w = s0.connected_users@[i as int].will_message->0;
                            assert(publish_built(m@, PublishFlags { dup: 0, qos: w.qos, retain: w.will_retain }, w.will_topic@, Some(1000u16),
                                text_bytes(w.will_message_content@)));
                            assert(published(s0, *self, m@, res, out0, writes_view(out@)));
                        }
                        res
                    },
                }
            },
        }
    }

    /// Whether `topic` can take one more message.
    pub fn topic_has_room(&self, topic: &String) -> (r: bool)
        ensures
            r == (queue_of(self.messages_by_topic@, topic@).len() < MAX_TOPIC_MESSAGES),
    {
        match find_entry(&self.messages_by_topic, topic) {
            Some(i) => self.messages_by_topic[i].1.len() < MAX_TOPIC_MESSAGES,
            None => true,
        }
    }

    /// Whether the will message, if any, of every user named `username` can
    /// be published: it fits in a PUBLISH and its topic has room.
    pub open spec fn will_can_be_published(&self, username: Seq<char>) -> bool {
        forall|j: int| 0 <= j < self.connected_users@.len() && (#[trigger] self.connected_users@[j]).username@ == username
            ==> (self.connected_users@[j].will_message matches Some(w) ==> will_publish_fits(w)
                && queue_of(self.messages_by_topic@, w.will_topic@).len() < MAX_TOPIC_MESSAGES)
    }

    /// A user leaves of its own will, with a DISCONNECT: its will message is
    /// published, then the user is removed.
    pub fn handle_disconnect(&mut self, client_id: &str, out: &mut Vec<(String, Vec<u8>)>) -> (r: Result<(), MqttError>)
        requires
            server_wf(*old(self)),
            old(self).will_can_be_published(client_id@),
        ensures
            server_wf(*final(self)),
            exists|mid: MQTTServer, r1: Result<(), MqttError>|
                #[trigger] will_published(*old(self), mid, client_id@, r1, writes_view(old(out)@), writes_view(final(out)@)) && if r1 is Err {
                    *final(self) == mid && r == r1
                } else {
                    &&& r == Ok::<(), MqttError>(())
                    &&& final(self).messages_by_topic == mid.messages_by_topic
                    &&& !has_user(final(self).connected_users@, client_id@)
                    &&& has_user(mid.connected_users@, client_id@) ==> exists|i: int|
                        0 <= i < mid.connected_users@.len() && (#[trigger] mid.connected_users@[i]).username@ == client_id@
                            && final(self).connected_users@ == mid.connected_users@.remove(i)
                    &&& !has_user(mid.connected_users@, client_id@) ==> final(self).connected_users@ == mid.connected_users@
                },
    {
        let ghost out0 = writes_view(out@);
        let ghost s0 = *self;
        let res = self.publish_users_will_message(client_id, out);
        let ghost mid = *self;
        assert(will_published(s0, mid, client_id@, res, out0, writes_view(out@)));
        if res.is_err() {
            return res;
        }
        self.remove_user(client_id);
        Ok(())
    }

    /// A user's connection ends without a DISCONNECT: the user is kept as
    /// temporarily disconnected, to be sent what it misses if it comes back,
    /// and its will message is published.
    pub fn handle_client_disconnection(&mut self, client_id: &str, out: &mut Vec<(String, Vec<u8>)>) -> (r: Result<(), MqttError>)
        requires
            server_wf(*old(self)),
            old(self).will_can_be_published(client_id@),
        ensures
            server_wf(*final(self)),
            exists|mid: MQTTServer|
                #[trigger] mid.messages_by_topic == old(self).messages_by_topic
                    && mid.connected_users@.len() == old(self).connected_users@.len()
                    && (forall|j: int| 0 <= j < old(self).connected_users@.len() ==> if (#[trigger] old(self).connected_users@[j]).username@ == client_id@ {
                        mid.connected_users@[j] == User { state: UserState::TemporallyDisconnected, ..old(self).connected_users@[j] }
                    } else {
                        mid.connected_users@[j] == old(self).connected_users@[j]
                    })
                    && will_published(mid, *final(self), client_id@, r, writes_view(old(out)@), writes_view(final(out)@)),
    {
        let ghost s0 = *self;
        let _ = self.set_user_as_temporally_disconnected(client_id);
        let ghost mid = *self;
        proof {
            assert forall|j: int| 0 <= j < s0.connected_users@.len() && (#[trigger] s0.connected_users@[j]).username@ == client_id@
                implies mid.connected_users@[j] == User { state: UserState::TemporallyDisconnected, ..s0.connected_users@[j] } by {}
            assert forall|j: int| 0 <= j < mid.connected_users@.len() && (#[trigger] mid.connected_users@[j]).username@ == client_id@
                implies (mid.connected_users@[j].will_message matches Some(w) ==> will_publish_fits(w)
                    && queue_of(mid.messages_by_topic@, w.will_topic@).len() < MAX_TOPIC_MESSAGES) by {
                assert(s0.connected_users@[j].username@ == client_id@);
            }
        }
        self.publish_users_will_message(client_id, out)
    }

    /// Whether the will message, if any, of the users named `username` can be
    /// published: it fits in a PUBLISH and its topic has room.
    pub fn can_publish_will(&self, username: &str) -> (r: bool)
        ensures
            r == self.will_can_be_published(username@),
    {
        let mut j: usize = 0;
        while j < self.connected_users.len()
            invariant
                j <= self.connected_users@.len(),
                forall|k: int| 0 <= k < j && (#[trigger] self.connected_users@[k]).username@ == username@
                    ==> (self.connected_users@[k].will_message matches Some(w) ==> will_publish_fits(w)
                        && queue_of(self.messages_by_topic@, w.will_topic@).len() < MAX_TOPIC_MESSAGES),
            decreases self.connected_users@.len() - j,
        {
            let u = &self.connected_users[j];
            if crate::mqtt::mqtt_utils::text::str_equals(u.username.as_str(), username) {
                if let Some(w) = &u.will_message {
                    let tl = text_len(&w.will_topic) % 256;
                    let cl = text_len(&w.will_message_content);
                    let q = cl / 8;
                    let padded = (8 * (q % 32) + 8) % 256;
                    assert((8 * q + 8) % 256 == (8 * (q % 32) + 8) % 256) by (nonlinear_arith)
                        requires q >= 0;
                    if 2 + tl + 2 + padded + 16 > 255 {
                        return false;
                    }
                    if !self.topic_has_room(&w.will_topic) {
                        return false;
                    }
                }
            }
            j = j + 1;
        }
        true
    }
}

/// How many messages of `topic` the user has yet to receive, or -1 when it is
/// not subscribed to `topic`; refuses a delivery index beyond the messages.
pub fn check_subscription_and_calculate_diff(user: &User, topic: &String, topic_messages: &Vec<Vec<u8>>) -> (r:
    Result<i32, MqttError>)
    requires
        topic_messages@.len() <= MAX_TOPIC_MESSAGES,
    ensures
        !has_topic(user.topics@, topic@) ==> r == Ok::<i32, MqttError>(-1i32),
        has_topic(user.topics@, topic@) && last_id_of(user.last_id_by_topic@, topic@)
            > topic_messages@.len() ==> r == Err::<i32, MqttError>(MqttError::DeliveryIndexBeyondQueue),
        has_topic(user.topics@, topic@) && last_id_of(user.last_id_by_topic@, topic@)
            <= topic_messages@.len() ==> r == Ok::<i32, MqttError>(
            (topic_messages@.len() - last_id_of(user.last_id_by_topic@, topic@)) as i32,
        ),
{
    if contains_topic(user.get_topics(), topic) {
        let topic_server_last_id = topic_messages.len() as u32;
        let user_last_id = user.get_last_id_by_topic(topic);
        if user_last_id > topic_server_last_id {
            return Err(MqttError::DeliveryIndexBeyondQueue);
        }
        Ok((topic_server_last_id - user_last_id) as i32)
    } else {
        Ok(-1)
    }
}

/// Sends `user` the next `diff` messages of `topic` from its delivery index
/// on, advancing the index after each one; refuses to write to a user that
/// is temporarily disconnected.
pub fn send_unreceived_messages_to_user(
    user: &mut User,
    topic: &String,
    topic_messages: &Vec<Vec<u8>>,
    diff: u32,
    out: &mut Vec<(String, Vec<u8>)>,
) -> (r: Result<(), MqttError>)
    requires
        last_id_of(old(user).last_id_by_topic@, topic@) + diff <= topic_messages@.len(),
        topic_messages@.len() <= MAX_TOPIC_MESSAGES,
    ensures
        diff > 0 && old(user).state == UserState::TemporallyDisconnected ==> r == Err::<(), MqttError>(
            MqttError::UserNotConnected,
        ) && *final(user) == *old(user) && writes_view(final(out)@) == writes_view(old(out)@),
        diff == 0 ==> r == Ok::<(), MqttError>(()) && *final(user) == *old(user) && writes_view(
            final(out)@,
        ) == writes_view(old(out)@),
        diff > 0 && old(user).state != UserState::TemporallyDisconnected ==> {
            let li = last_id_of(old(user).last_id_by_topic@, topic@);
            let q = topic_messages@.map_values(|m: Vec<u8>| m@);
            &&& r == Ok::<(), MqttError>(())
            &&& user_with_index(*old(user), *final(user), topic@, (li + diff) as u32)
            &&& writes_view(final(out)@) == writes_view(old(out)@) + writes_to(
                old(user).username@,
                q.subrange(li as int, li + diff),
            )
        },
{
    let ghost u0 = *user;
    let ghost li = last_id_of(user.last_id_by_topic@, topic@);
    let ghost q = topic_messages@.map_values(|m: Vec<u8>| m@);
    let ghost out0 = writes_view(out@);
    if diff > 0 && !user.is_not_disconnected() {
        return Err(MqttError::UserNotConnected);
    }
    let mut k: u32 = 0;
    while k < diff
        invariant
            k <= diff,
            li + diff <= topic_messages@.len(),
            topic_messages@.len() <= MAX_TOPIC_MESSAGES,
            q == topic_messages@.map_values(|m: Vec<u8>| m@),
            li == last_id_of(u0.last_id_by_topic@, topic@),
            k == 0 ==> *user == u0 && writes_view(out@) == out0,
            k > 0 ==> user_with_index(u0, *user, topic@, (li + k) as u32),
            diff > 0 ==> u0.state != UserState::TemporallyDisconnected,
            last_id_of(user.last_id_by_topic@, topic@) == li + k,
            writes_view(out@) == out0 + writes_to(u0.username@, q.subrange(li as int, li + k)),
        decreases diff - k,
    {
        let next_message_index = user.get_last_id_by_topic(topic) as usize;
        if next_message_index < topic_messages.len() {
            let bytes = copy_range(topic_messages[next_message_index].as_slice(), 0, topic_messages[next_message_index].len());
            assert(topic_messages@[next_message_index as int]@.subrange(0, topic_messages@[next_message_index as int]@.len() as int) =~= topic_messages@[next_message_index as int]@);
            let ghost before_out = writes_view(out@);
            out.push((user.get_username(), bytes));
            proof {
                assert(writes_view(out@) =~= before_out.push((u0.username@, q[next_message_index as int])));
                assert(q.subrange(li as int, li + k + 1) =~= q.subrange(li as int, li + k).push(q[li + k]));
                assert(writes_to(u0.username@, q.subrange(li as int, li + k + 1)) =~= writes_to(u0.username@, q.subrange(li as int, li + k)).push((u0.username@, q[li + k])));
            }
            user.update_last_id_by_topic(topic, (next_message_index + 1) as u32);
        }
        k = k + 1;
    }
    Ok(())
}

} // verus!
