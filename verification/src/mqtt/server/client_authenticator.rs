use vstd::prelude::*;
use crate::mqtt::messages::connack_message::ConnackMessage;
use crate::mqtt::messages::connack_session_present::SessionPresent;
use crate::mqtt::messages::connect_message::ConnectMessage;
use crate::mqtt::messages::connect_return_code::ConnectReturnCode;
use crate::mqtt::mqtt_utils::codec::opt_text;
use crate::mqtt::mqtt_utils::mqtt_error::MqttError;
use crate::mqtt::mqtt_utils::text::chars_of;
use crate::mqtt::mqtt_utils::text::word_bounds;
use crate::mqtt::mqtt_utils::text::words;
use super::mqtt_server::MQTTServer;
use super::mqtt_server::fresh_user;
use super::mqtt_server::has_user;
use super::mqtt_server::server_wf;
use super::mqtt_server::writes_view;
use super::mqtt_server::reconnected_or_duplicate;
use super::mqtt_server::user_added;
use crate::mqtt::messages::connect_message::connect_will;
use super::user_state::UserState;

verus! {

/// Whether the name and password both appear, as one pair, among the
/// credentials.
pub open spec fn credentials_match(user: Seq<char>, passwd: Seq<char>, credentials: Seq<(String, String)>) -> bool {
    exists|i: int| 0 <= i < credentials.len() && #[trigger] credentials[i].0@ == user && credentials[i].1@ == passwd
}

/// Whether a CONNECT with this name and password is let in: as a guest when
/// it carries neither, or when both match a stored pair of credentials.
pub open spec fn access_granted(
    user: Option<Seq<char>>,
    passwd: Option<Seq<char>>,
    credentials: Seq<(String, String)>,
) -> bool {
    (user is None && passwd is None) || (user is Some && passwd is Some && credentials_match(
        user->0,
        passwd->0,
        credentials,
    ))
}

/// The pairs of name and password that the lines of a credentials file
/// hold: each line of exactly two words gives one pair, in order.
pub open spec fn credentials_of(lines: Seq<Seq<char>>) -> Seq<(Seq<char>, Seq<char>)>
    decreases lines.len(),
{
    if lines.len() == 0 {
        Seq::empty()
    } else {
        let w = words(lines.last());
        credentials_of(lines.drop_last()) + if w.len() == 2 {
            seq![(w[0], w[1])]
        } else {
            Seq::empty()
        }
    }
}

/// The text of each pair.
pub open spec fn pairs_view(v: Seq<(String, String)>) -> Seq<(Seq<char>, Seq<char>)> {
    v.map_values(|p: (String, String)| (p.0@, p.1@))
}

/// The name and password of a credentials line, when it has exactly two
/// words.
pub fn parse_credentials_line(line: &str) -> (r: Option<(String, String)>)
    ensures
        r is Some <==> words(line@).len() == 2,
        r matches Some(p) ==> p.0@ == words(line@)[0] && p.1@ == words(line@)[1],
{
    let chars = chars_of(line);
    let bounds = word_bounds(&chars);
    if bounds.len() == 2 {
        let (a0, a1) = bounds[0];
        let (b0, b1) = bounds[1];
        let user = line.substring_char(a0, a1).to_owned();
        let passwd = line.substring_char(b0, b1).to_owned();
        Some((user, passwd))
    } else {
        None
    }
}

/// The credentials that the lines of a credentials file hold.
pub fn credentials_from_lines(lines: &Vec<String>) -> (r: Vec<(String, String)>)
    ensures
        pairs_view(r@) == credentials_of(lines@.map_values(|l: String| l@)),
{
    let ghost ls = lines@.map_values(|l: String| l@);
    let mut credentials: Vec<(String, String)> = Vec::new();
    let mut k: usize = 0;
    while k < lines.len()
        invariant
            k <= lines@.len(),
            ls == lines@.map_values(|l: String| l@),
            pairs_view(credentials@) == credentials_of(ls.subrange(0, k as int)),
        decreases lines@.len() - k,
    {
        let ghost before = pairs_view(credentials@);
        let parsed = parse_credentials_line(lines[k].as_str());
        proof {
            assert(ls.subrange(0, k + 1).drop_last() =~= ls.subrange(0, k as int));
            assert(ls.subrange(0, k + 1).last() == lines@[k as int]@);
        }
        if let Some(p) = parsed {
            credentials.push(p);
            assert(pairs_view(credentials@) =~= before + seq![(words(lines@[k as int]@)[0], words(lines@[k as int]@)[1])]);
        } else {
            assert(before + Seq::<(Seq<char>, Seq<char>)>::empty() =~= before);
        }
        k = k + 1;
    }
    assert(ls.subrange(0, k as int) =~= ls);
    credentials
}

/// Decides whether a client may connect, and with which CONNACK to answer.
#[derive(Debug)]
pub struct AuthenticateClient {}

impl AuthenticateClient {
    pub fn new() -> (r: Self) {
        AuthenticateClient {}
    }

    /// Whether the CONNECT asks for guest access: neither name nor password.
    pub fn is_guest_mode_active(&self, user: Option<&String>, passwd: Option<&String>) -> (r: bool)
        ensures
            r == (user is None && passwd is None),
    {
        user.is_none() && passwd.is_none()
    }

    /// Whether a name and a password are given and match one of the pairs of
    /// `credentials`.
    pub fn verify_authentication(
        &self,
        user: Option<&String>,
        passwd: Option<&String>,
        credentials: &[(String, String)],
    ) -> (r: bool)
        ensures
            r == (user is Some && passwd is Some && credentials_match(
                user->0@,
                passwd->0@,
                credentials@,
            )),
    {
        match user {
            None => false,
            Some(u) => match passwd {
                None => false,
                Some(p) => {
                let mut i: usize = 0;
                while i < credentials.len()
                    invariant
                        i <= credentials@.len(),
                        user == Some(u),
                        passwd == Some(p),
                        forall|j: int|
                            0 <= j < i ==> !(#[trigger] credentials@[j].0@ == u@ && credentials@[j].1@ == p@),
                    decreases credentials@.len() - i,
                {
                    let (username, password) = (&credentials[i].0, &credentials[i].1);
                    if u.eq(username) && p.eq(password) {
                        assert(credentials@[i as int].0@ == u@ && credentials@[i as int].1@ == p@);
                        return true;
                    }
                    i = i + 1;
                }
                false
            },
            },
        }
    }

    /// Whether the client that sent `connect_msg` is let in, given the stored
    /// `credentials`, with the CONNACK that answers it: accepted, or refused as
    /// not authorized. No session is ever reported as present.
    pub fn was_the_session_created_succesfully(
        &self,
        connect_msg: &ConnectMessage,
        credentials: &[(String, String)],
    ) -> (r: Result<(bool, ConnackMessage), MqttError>)
        ensures
            r matches Ok((ok, ack)) && {
                &&& ok == access_granted(
                    opt_text(connect_msg.payload.username),
                    opt_text(connect_msg.payload.password),
                    credentials@,
                )
                &&& ack.session_present == SessionPresent::NotPresentInLastSession
                &&& ack.connect_return_code == if ok {
                    ConnectReturnCode::ConnectionAccepted
                } else {
                    ConnectReturnCode::NotAuthorized
                }
            },
    {
        let user = connect_msg.get_user();
        let passwd = connect_msg.get_passwd();
        if self.is_guest_mode_active(user, passwd) || self.verify_authentication(user, passwd, credentials) {
            let connack_response = ConnackMessage::new(
                SessionPresent::NotPresentInLastSession,
                ConnectReturnCode::ConnectionAccepted,
            );
            Ok((true, connack_response))
        } else {
            let connack_response = ConnackMessage::new(
                SessionPresent::NotPresentInLastSession,
                ConnectReturnCode::NotAuthorized,
            );
            Ok((false, connack_response))
        }
    }
}

/// How the broker registers the client `name` of an accepted CONNECT `c`:
/// first a reconnection or a duplicate is dealt with (`mid`); unless the
/// client was reconnecting, a new user then takes the name, keeping the
/// will `c` asks for.
pub open spec fn client_registered(
    before: MQTTServer,
    after: MQTTServer,
    c: ConnectMessage,
    old_out: Seq<(Seq<char>, Seq<u8>)>,
    new_out: Seq<(Seq<char>, Seq<u8>)>,
) -> bool {
    exists|mid: MQTTServer, reconnected: bool|
        #[trigger] reconnected_or_duplicate(before, mid, c.payload.client_id@, Ok::<bool, MqttError>(reconnected), old_out, new_out)
            && if reconnected {
            after == mid
        } else {
            user_added(mid, after, c.payload.client_id@, connect_will(c))
        }
}

impl AuthenticateClient {
    /// Registers the client of an accepted CONNECT with the broker: a user
    /// of that name that was temporarily disconnected is reconnecting and is
    /// sent what it missed; otherwise (after a DISCONNECT sent to an active
    /// duplicate) a new user takes the name. Whether the client was let in:
    /// always, as a CONNECT always carries a client identifier.
    pub fn handle_successful_authentication(
        &self,
        connect_msg: &ConnectMessage,
        mqtt_server: &mut MQTTServer,
        out: &mut Vec<(String, Vec<u8>)>,
    ) -> (r: Result<bool, MqttError>)
        requires
            server_wf(*old(mqtt_server)),
        ensures
            server_wf(*final(mqtt_server)),
            r == Ok::<bool, MqttError>(true),
            client_registered(*old(mqtt_server), *final(mqtt_server), *connect_msg, writes_view(old(out)@), writes_view(final(out)@)),
            forall|j: int| 0 <= j < old(mqtt_server).connected_users@.len() && (#[trigger] old(mqtt_server).connected_users@[j]).username@
                != connect_msg.payload.client_id@ ==> final(mqtt_server).connected_users@[j] == old(mqtt_server).connected_users@[j],
            final(mqtt_server).messages_by_topic == old(mqtt_server).messages_by_topic,
            has_user(final(mqtt_server).connected_users@, connect_msg.payload.client_id@),
            forall|j: int| 0 <= j < final(mqtt_server).connected_users@.len() && (#[trigger] final(mqtt_server).connected_users@[j]).username@
                == connect_msg.payload.client_id@ ==> final(mqtt_server).connected_users@[j].state == UserState::Active,
            !(exists|j: int| 0 <= j < old(mqtt_server).connected_users@.len() && (#[trigger] old(mqtt_server).connected_users@[j]).username@
                == connect_msg.payload.client_id@ && old(mqtt_server).connected_users@[j].state == UserState::TemporallyDisconnected)
                ==> forall|j: int| 0 <= j < final(mqtt_server).connected_users@.len() && (#[trigger] final(mqtt_server).connected_users@[j]).username@
                == connect_msg.payload.client_id@ ==> fresh_user(final(mqtt_server).connected_users@[j], connect_msg.payload.client_id@),
    {
        let username = match connect_msg.get_client_id() {
            Some(u) => u,
            None => {
                return Ok(false);
            },
        };
        let ghost s0 = *mqtt_server;
        let ghost out0 = writes_view(out@);
        let is_reconnection = match mqtt_server.manage_possible_reconnecting_or_duplicate_user(username.as_str(), out) {
            Ok(b) => b,
            Err(e) => {
                return Err(e);
            },
        };
        let ghost s1 = *mqtt_server;
        if !is_reconnection {
            mqtt_server.add_new_user(username.as_str(), connect_msg);
            proof {
                assert(reconnected_or_duplicate(s0, s1, connect_msg.payload.client_id@, Ok::<bool, MqttError>(false), out0, writes_view(out@)));
                let name = connect_msg.payload.client_id@;
                if has_user(s0.connected_users@, name) {
                    let i = choose|i: int| 0 <= i < s0.connected_users@.len() && (#[trigger] s0.connected_users@[i]).username@ == name;
                    assert(s1.connected_users@[i].username@ == name || s1.connected_users@[i] == s0.connected_users@[i]);
                }
                assert(!has_user(mqtt_server.connected_users@, name) ==> false) by {
                    if !has_user(s1.connected_users@, name) {
                        assert(mqtt_server.connected_users@[s1.connected_users@.len() as int].username@ == name);
                    } else {
                        let i = choose|i: int| 0 <= i < s1.connected_users@.len() && (#[trigger] s1.connected_users@[i]).username@ == name;
                        assert(mqtt_server.connected_users@[i].username@ == name);
                    }
                }
            }
        } else {
            proof {
                assert(reconnected_or_duplicate(s0, s1, connect_msg.payload.client_id@, Ok::<bool, MqttError>(true), out0, writes_view(out@)));
                let name = connect_msg.payload.client_id@;
                let i = choose|i: int| 0 <= i < s0.connected_users@.len() && (#[trigger] s0.connected_users@[i]).username@ == name
                    && s0.connected_users@[i].state != UserState::Active;
                assert(mqtt_server.connected_users@[i].username@ == name);
                assert forall|j: int| 0 <= j < mqtt_server.connected_users@.len() && (#[trigger] mqtt_server.connected_users@[j]).username@
                    == name implies mqtt_server.connected_users@[j].state == UserState::Active by {
                    if j != i {
                        assert(mqtt_server.connected_users@[j] == s0.connected_users@[j]);
                        assert(s0.connected_users@[i].username@ != s0.connected_users@[j].username@);
                    }
                }
            }
        }
        Ok(true)
    }

    /// Answers a CONNECT: whether the client is let in, given the stored
    /// `credentials`, with the CONNACK to send it first; an accepted client is
    /// registered with the broker.
    pub fn is_it_a_valid_connection(
        &self,
        connect_msg: &ConnectMessage,
        credentials: &[(String, String)],
        mqtt_server: &mut MQTTServer,
        out: &mut Vec<(String, Vec<u8>)>,
    ) -> (r: Result<(bool, ConnackMessage), MqttError>)
        requires
            server_wf(*old(mqtt_server)),
        ensures
            server_wf(*final(mqtt_server)),
            ({
                let ok = access_granted(
                    opt_text(connect_msg.payload.username),
                    opt_text(connect_msg.payload.password),
                    credentials@,
                );
                &&& r matches Ok((b, ack)) && b == ok && ack.session_present == SessionPresent::NotPresentInLastSession
                    && ack.connect_return_code == if ok {
                    ConnectReturnCode::ConnectionAccepted
                } else {
                    ConnectReturnCode::NotAuthorized
                }
                &&& !ok ==> *final(mqtt_server) == *old(mqtt_server) && writes_view(final(out)@) == writes_view(old(out)@)
                &&& ok ==> has_user(final(mqtt_server).connected_users@, connect_msg.payload.client_id@)
                &&& ok ==> client_registered(*old(mqtt_server), *final(mqtt_server), *connect_msg, writes_view(old(out)@), writes_view(final(out)@))
                &&& ok ==> forall|j: int| 0 <= j < old(mqtt_server).connected_users@.len() && (#[trigger] old(mqtt_server).connected_users@[j]).username@
                    != connect_msg.payload.client_id@ ==> final(mqtt_server).connected_users@[j] == old(mqtt_server).connected_users@[j]
            }),
    {
        let (is_authentic, connack_response) = match self.was_the_session_created_succesfully(connect_msg, credentials) {
            Ok(p) => p,
            Err(e) => return Err(e),
        };
        if is_authentic {
            match self.handle_successful_authentication(connect_msg, mqtt_server, out) {
                Ok(b) => Ok((b, connack_response)),
                Err(e) => Err(e),
            }
        } else {
            Ok((false, connack_response))
        }
    }
}

impl Default for AuthenticateClient {
    fn default() -> (r: Self) {
        AuthenticateClient::new()
    }
}

} // verus!
