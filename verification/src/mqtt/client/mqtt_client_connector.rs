use vstd::prelude::*;
use crate::mqtt::messages::connack_message::ConnackMessage;
use crate::mqtt::messages::connack_message::parse_connack;
use crate::mqtt::messages::connect_return_code::ConnectReturnCode;
use crate::mqtt::messages::packet_type::PacketType;
use crate::mqtt::messages::packet_type::packet_type_of;
use crate::mqtt::mqtt_utils::fixed_header::FixedHeader;
use crate::mqtt::mqtt_utils::mqtt_error::MqttError;

verus! {

/// Times the CONNECT is sent again when no CONNACK arrives in time.
pub const AMOUNT_OF_RETRIES: u8 = 5;

/// What happened while waiting for the CONNACK: a whole packet arrived, or
/// the wait timed out.
pub enum ConnackWait {
    Received(Vec<u8>),
    TimedOut,
}

/// What the client does next while connecting.
#[derive(Debug, PartialEq, Eq, Clone, Copy, Structural)]
pub enum ConnectStep {
    /// The server accepted the connection.
    Connected,
    /// Send the CONNECT again and wait.
    Resend,
}

/// What reading the packet `b` that arrived while waiting for the CONNACK
/// gives: accepted, or why not.
pub open spec fn connack_outcome(b: Seq<u8>) -> Result<ConnectStep, MqttError> {
    if b.len() < 2 || packet_type_of(b[0] >> 4u8) != PacketType::Connack {
        Err(MqttError::WrongPacketType)
    } else {
        match parse_connack(b) {
            Err(e) => Err(e),
            Ok(ack) => if ack.connect_return_code == ConnectReturnCode::ConnectionAccepted {
                Ok(ConnectStep::Connected)
            } else {
                Err(MqttError::ConnectionRefused)
            },
        }
    }
}

/// Whether the CONNACK in `recvd_bytes` accepts the connection; refuses
/// bytes that are no CONNACK, and a CONNACK with another return code.
pub fn complete_connack_read_and_analyze_it(recvd_bytes: &Vec<u8>) -> (r: Result<(), MqttError>)
    ensures
        match parse_connack(recvd_bytes@) {
            Err(e) => r == Err::<(), MqttError>(e),
            Ok(ack) => if ack.connect_return_code == ConnectReturnCode::ConnectionAccepted {
                r == Ok::<(), MqttError>(())
            } else {
                r == Err::<(), MqttError>(MqttError::ConnectionRefused)
            },
        },
{
    let msg = match ConnackMessage::from_bytes(recvd_bytes.as_slice()) {
        Ok(m) => m,
        Err(e) => return Err(e),
    };
    if msg.get_connect_return_code() == ConnectReturnCode::ConnectionAccepted {
        Ok(())
    } else {
        Err(MqttError::ConnectionRefused)
    }
}

/// One step of connecting, from the retransmissions left and what the wait
/// gave: the retransmissions left after it and what to do. A CONNACK ends
/// the attempt, accepted or not; a timeout sends the CONNECT again while
/// retransmissions are left, and gives up otherwise.
pub fn wait_for_connack_step(remaining_retries: u8, event: &ConnackWait) -> (r: (u8, Result<ConnectStep, MqttError>))
    ensures
        r == connack_step(remaining_retries, *event),
        match event {
            ConnackWait::Received(b) => r.0 == remaining_retries && r.1 == connack_outcome(b@),
            ConnackWait::TimedOut => if remaining_retries > 0 {
                r.0 == remaining_retries - 1 && r.1 == Ok::<ConnectStep, MqttError>(ConnectStep::Resend)
            } else {
                r == (0u8, Err::<ConnectStep, MqttError>(MqttError::MaxRetriesReached))
            },
        },
{
    match event {
        ConnackWait::Received(b) => {
            if b.len() < 2 {
                return (remaining_retries, Err(MqttError::WrongPacketType));
            }
            let fixed_header = FixedHeader::from_bytes(copy_bytes(b));
            if fixed_header.get_message_type() != PacketType::Connack {
                return (remaining_retries, Err(MqttError::WrongPacketType));
            }
            match complete_connack_read_and_analyze_it(b) {
                Ok(()) => (remaining_retries, Ok(ConnectStep::Connected)),
                Err(e) => (remaining_retries, Err(e)),
            }
        },
        ConnackWait::TimedOut => {
            if remaining_retries > 0 {
                (remaining_retries - 1, Ok(ConnectStep::Resend))
            } else {
                (0, Err(MqttError::MaxRetriesReached))
            }
        },
    }
}

fn copy_bytes(b: &Vec<u8>) -> (r: Vec<u8>)
    ensures
        r@ == b@,
{
    let r = crate::mqtt::mqtt_utils::codec::copy_range(b.as_slice(), 0, b.len());
    assert(b@.subrange(0, b@.len() as int) =~= b@);
    r
}

/// What one step of connecting gives, from the retransmissions left and
/// what the wait gave: the retransmissions left after it and what to do.
pub open spec fn connack_step(remaining_retries: u8, event: ConnackWait) -> (u8, Result<ConnectStep, MqttError>) {
    match event {
        ConnackWait::Received(b) => (remaining_retries, connack_outcome(b@)),
        ConnackWait::TimedOut => if remaining_retries > 0 {
            ((remaining_retries - 1) as u8, Ok(ConnectStep::Resend))
        } else {
            (0u8, Err(MqttError::MaxRetriesReached))
        },
    }
}

/// Connecting through the waits `events`, starting with `remaining`
/// retransmissions left and feeding each step the count the previous one
/// returned: how many times the CONNECT is sent again, and how the attempt
/// ends, if it ends within `events`.
pub open spec fn connect_run(remaining: u8, events: Seq<ConnackWait>) -> (nat, Option<Result<ConnectStep, MqttError>>)
    decreases events.len(),
{
    if events.len() == 0 {
        (0, None)
    } else {
        let (next, step) = connack_step(remaining, events[0]);
        if step == Ok::<ConnectStep, MqttError>(ConnectStep::Resend) {
            let (n, end) = connect_run(next, events.drop_first());
            (n + 1, end)
        } else {
            (0, Some(step))
        }
    }
}

/// Whatever the waits give, connecting from `remaining` retransmissions
/// sends the CONNECT again at most `remaining` times; when the first
/// `remaining + 1` waits all time out, it is sent again exactly `remaining`
/// times and the next timeout gives up with `MaxRetriesReached`. From
/// `AMOUNT_OF_RETRIES`, that is at most 5 retransmissions.
pub proof fn lemma_connect_resends_at_most_retries(remaining: u8, events: Seq<ConnackWait>)
    ensures
        connect_run(remaining, events).0 <= remaining,
        events.len() > remaining && (forall|k: int| 0 <= k <= remaining ==> #[trigger] events[k] is TimedOut)
            ==> connect_run(remaining, events) == (remaining as nat, Some(Err::<ConnectStep, MqttError>(MqttError::MaxRetriesReached))),
        connect_run(AMOUNT_OF_RETRIES, events).0 <= 5,
{
    lemma_connect_run(remaining, events);
    lemma_connect_run(AMOUNT_OF_RETRIES, events);
}

proof fn lemma_connect_run(remaining: u8, events: Seq<ConnackWait>)
    ensures
        connect_run(remaining, events).0 <= remaining,
        events.len() > remaining && (forall|k: int| 0 <= k <= remaining ==> #[trigger] events[k] is TimedOut)
            ==> connect_run(remaining, events) == (remaining as nat, Some(Err::<ConnectStep, MqttError>(MqttError::MaxRetriesReached))),
    decreases events.len(),
{
    if events.len() > 0 {
        let (next, step) = connack_step(remaining, events[0]);
        if step == Ok::<ConnectStep, MqttError>(ConnectStep::Resend) {
            lemma_connect_run(next, events.drop_first());
            if events.len() > remaining && (forall|k: int| 0 <= k <= remaining ==> #[trigger] events[k] is TimedOut) {
                assert forall|k: int| 0 <= k <= next implies #[trigger] events.drop_first()[k] is TimedOut by {
                    assert(events[k + 1] is TimedOut);
                }
            }
        }
    }
}

} // verus!
