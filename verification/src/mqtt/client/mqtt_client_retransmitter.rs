use vstd::prelude::*;
use std::sync::mpsc::Receiver;
use std::sync::mpsc::Sender;
use super::ack_message::ACKMessage;
use crate::mqtt::mqtt_utils::mqtt_error::MqttError;
use super::mqtt_client_connector::AMOUNT_OF_RETRIES;

verus! {

/// The receiving end of a channel, carried through unopened.
#[verifier::external_type_specification]
#[verifier::external_body]
#[verifier::reject_recursive_types(T)]
pub struct ExReceiver<T>(Receiver<T>);

/// The sending end of a channel, carried through unopened.
#[verifier::external_type_specification]
#[verifier::external_body]
#[verifier::reject_recursive_types(T)]
pub struct ExSender<T>(Sender<T>);

/// Calls `std::sync::mpsc::channel` for acknowledgements: a new channel's
/// sending and receiving ends. Nothing is stated of them.
#[verifier::external_body]
fn ack_channel() -> (r: (Sender<ACKMessage>, Receiver<ACKMessage>)) {
    std::sync::mpsc::channel::<ACKMessage>()
}

/// What happened while waiting for an acknowledgement: the listener passed
/// one on, the wait timed out, or the listener stopped.
pub enum AckWait {
    Received(ACKMessage),
    TimedOut,
    ListenerStopped,
}

/// What the client does next while waiting for an acknowledgement.
#[derive(Debug, PartialEq, Eq, Clone, Copy, Structural)]
pub enum AckStep {
    /// Stop waiting: the acknowledgement arrived, or none can arrive any more.
    Done,
    /// An acknowledgement of another packet arrived: go on waiting.
    KeepWaiting,
    /// Send the packet again and wait.
    Resend,
}

/// The packet identifier that an acknowledgement acknowledges.
pub open spec fn acked_packet_id(a: ACKMessage) -> u16 {
    match a {
        ACKMessage::PubAck(m) => m.packet_id,
        ACKMessage::SubAck(m) => m.packet_identifier,
    }
}

/// What one step of waiting for the acknowledgement of `packet_id` gives,
/// from the retransmissions left and what the wait gave.
pub open spec fn ack_step(packet_id: u16, remaining_retries: u8, event: AckWait) -> (u8, Result<AckStep, MqttError>) {
    match event {
        AckWait::Received(a) => (remaining_retries, Ok(if acked_packet_id(a) == packet_id {
            AckStep::Done
        } else {
            AckStep::KeepWaiting
        })),
        AckWait::TimedOut => if remaining_retries > 0 {
            ((remaining_retries - 1) as u8, Ok(AckStep::Resend))
        } else {
            (0u8, Err(MqttError::MaxRetriesReached))
        },
        AckWait::ListenerStopped => (remaining_retries, Ok(AckStep::Done)),
    }
}

/// Waiting for the acknowledgement of `packet_id` through the waits
/// `events`, starting with `remaining` retransmissions left and feeding each
/// step the count the previous one returned: how many times the packet is
/// sent again, and how the wait ends, if it ends within `events`.
pub open spec fn ack_run(packet_id: u16, remaining: u8, events: Seq<AckWait>) -> (nat, Option<Result<AckStep, MqttError>>)
    decreases events.len(),
{
    if events.len() == 0 {
        (0, None)
    } else {
        let (next, step) = ack_step(packet_id, remaining, events[0]);
        if step == Ok::<AckStep, MqttError>(AckStep::Resend) {
            let (n, end) = ack_run(packet_id, next, events.drop_first());
            (n + 1, end)
        } else if step == Ok::<AckStep, MqttError>(AckStep::KeepWaiting) {
            ack_run(packet_id, next, events.drop_first())
        } else {
            (0, Some(step))
        }
    }
}

/// Whatever the waits give, waiting from `remaining` retransmissions sends
/// the packet again at most `remaining` times; when the first `remaining + 1`
/// waits all time out, it is sent again exactly `remaining` times and the
/// next timeout gives up with `MaxRetriesReached`. From `AMOUNT_OF_RETRIES`,
/// that is at most 5 retransmissions.
pub proof fn lemma_ack_resends_at_most_retries(packet_id: u16, remaining: u8, events: Seq<AckWait>)
    ensures
        ack_run(packet_id, remaining, events).0 <= remaining,
        events.len() > remaining && (forall|k: int| 0 <= k <= remaining ==> #[trigger] events[k] is TimedOut)
            ==> ack_run(packet_id, remaining, events) == (remaining as nat, Some(Err::<AckStep, MqttError>(MqttError::MaxRetriesReached))),
        ack_run(packet_id, AMOUNT_OF_RETRIES, events).0 <= 5,
{
    lemma_ack_run(packet_id, remaining, events);
    lemma_ack_run(packet_id, AMOUNT_OF_RETRIES, events);
}

proof fn lemma_ack_run(packet_id: u16, remaining: u8, events: Seq<AckWait>)
    ensures
        ack_run(packet_id, remaining, events).0 <= remaining,
        events.len() > remaining && (forall|k: int| 0 <= k <= remaining ==> #[trigger] events[k] is TimedOut)
            ==> ack_run(packet_id, remaining, events) == (remaining as nat, Some(Err::<AckStep, MqttError>(MqttError::MaxRetriesReached))),
    decreases events.len(),
{
    if events.len() > 0 {
        let (next, step) = ack_step(packet_id, remaining, events[0]);
        if step == Ok::<AckStep, MqttError>(AckStep::Resend) || step == Ok::<AckStep, MqttError>(AckStep::KeepWaiting) {
            lemma_ack_run(packet_id, next, events.drop_first());
            if events.len() > remaining && (forall|k: int| 0 <= k <= remaining ==> #[trigger] events[k] is TimedOut) {
                assert forall|k: int| 0 <= k <= next implies #[trigger] events.drop_first()[k] is TimedOut by {
                    assert(events[k + 1] is TimedOut);
                }
            }
        }
    }
}

/// One step of waiting for the acknowledgement of packet `packet_id`, from
/// the retransmissions left and what the wait gave: the retransmissions left
/// after it and what to do. Its acknowledgement ends the wait, another one
/// does not; a timeout sends the packet again while retransmissions are
/// left, and gives up otherwise; a stopped listener ends the wait.
pub fn wait_for_ack_step(packet_id: u16, remaining_retries: u8, event: &AckWait) -> (r: (u8, Result<AckStep, MqttError>))
    ensures
        r == ack_step(packet_id, remaining_retries, *event),
        match event {
            AckWait::Received(a) => r.0 == remaining_retries && r.1 == Ok::<AckStep, MqttError>(
                if acked_packet_id(*a) == packet_id {
                    AckStep::Done
                } else {
                    AckStep::KeepWaiting
                },
            ),
            AckWait::TimedOut => if remaining_retries > 0 {
                r.0 == remaining_retries - 1 && r.1 == Ok::<AckStep, MqttError>(AckStep::Resend)
            } else {
                r == (0u8, Err::<AckStep, MqttError>(MqttError::MaxRetriesReached))
            },
            AckWait::ListenerStopped => r == (remaining_retries, Ok::<AckStep, MqttError>(AckStep::Done)),
        },
{
    match event {
        AckWait::Received(ack_message) => {
            if let Some(packet_identifier) = ack_message.get_packet_id() {
                if packet_id == packet_identifier {
                    return (remaining_retries, Ok(AckStep::Done));
                }
            }
            (remaining_retries, Ok(AckStep::KeepWaiting))
        },
        AckWait::TimedOut => {
            if remaining_retries > 0 {
                (remaining_retries - 1, Ok(AckStep::Resend))
            } else {
                (0, Err(MqttError::MaxRetriesReached))
            }
        },
        AckWait::ListenerStopped => (remaining_retries, Ok(AckStep::Done)),
    }
}

/// The part of the client that waits for acknowledgements: the listener
/// sends each one it reads through the channel whose receiving end this
/// keeps. The waiting itself, with `wait_for_ack_step` deciding each step,
/// belongs to whoever owns the connection.
pub struct MQTTClientRetransmitter {
    pub ack_rx: Receiver<ACKMessage>,
}

impl MQTTClientRetransmitter {
    /// A retransmitter, and the sending end of its channel, for the listener.
    pub fn new() -> (r: (Self, Sender<ACKMessage>)) {
        let (ack_tx, ack_rx) = ack_channel();
        (Self { ack_rx }, ack_tx)
    }
}

} // verus!
