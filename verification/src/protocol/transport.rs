//! An in-memory transport: two endpoints joined by bounded frame queues, each
//! direction limited in frames and in queued bytes.

use std::sync::atomic::AtomicUsize;
use std::sync::atomic::Ordering;
use std::sync::Arc;

use vstd::prelude::*;

use super::codec::{frame_spec, is_frame_body, Codec};
use super::ProtocolError;

verus! {

#[verifier::external_type_specification]
#[verifier::external_body]
#[verifier::reject_recursive_types(T)]
pub struct ExternalSyncSender<T>(std::sync::mpsc::SyncSender<T>);

#[verifier::external_type_specification]
#[verifier::external_body]
#[verifier::reject_recursive_types(T)]
pub struct ExternalReceiver<T>(std::sync::mpsc::Receiver<T>);

#[derive(Clone, Debug)]
pub enum TransportError {
    Protocol(ProtocolError),
    QueueFull,
    ByteLimit { maximum: usize },
    Disconnected,
}

/// Why a frame could not be queued; the frame comes back.
enum SendFailure {
    Full(Vec<u8>),
    Disconnected(Vec<u8>),
}

/// Why no frame could be taken.
enum ReceiveFailure {
    Empty,
    Disconnected,
}

/// Calls `SyncSender::try_send`; a refused frame is handed back unchanged.
#[verifier::external_body]
fn try_send_frame(sender: &std::sync::mpsc::SyncSender<Vec<u8>>, frame: Vec<u8>) -> (r: Result<
    (),
    SendFailure,
>)
    ensures
        r matches Err(SendFailure::Full(back)) ==> back@ == frame@,
        r matches Err(SendFailure::Disconnected(back)) ==> back@ == frame@,
{
    match sender.try_send(frame) {
        Ok(()) => Ok(()),
        Err(std::sync::mpsc::TrySendError::Full(back)) => Err(SendFailure::Full(back)),
        Err(std::sync::mpsc::TrySendError::Disconnected(back)) => Err(SendFailure::Disconnected(back)),
    }
}

/// Calls `Receiver::try_recv`; what comes depends on the peer, so nothing is stated.
#[verifier::external_body]
fn try_receive_frame(receiver: &std::sync::mpsc::Receiver<Vec<u8>>) -> (r: Result<
    Vec<u8>,
    ReceiveFailure,
>) {
    match receiver.try_recv() {
        Ok(frame) => Ok(frame),
        Err(std::sync::mpsc::TryRecvError::Empty) => Err(ReceiveFailure::Empty),
        Err(std::sync::mpsc::TryRecvError::Disconnected) => Err(ReceiveFailure::Disconnected),
    }
}

/// Calls `std::sync::mpsc::sync_channel` with room for `bound` frames.
#[verifier::external_body]
fn frame_channel(bound: usize) -> (r: (std::sync::mpsc::SyncSender<Vec<u8>>, std::sync::mpsc::Receiver<Vec<u8>>)) {
    std::sync::mpsc::sync_channel(bound)
}

/// Calls `Arc::clone`: another handle on the same counter.
#[verifier::external_body]
fn share(counter: &Arc<AtomicUsize>) -> (r: Arc<AtomicUsize>)
    ensures
        r == *counter,
{
    Arc::clone(counter)
}

/// The queued byte count after adding `frame_bytes` to `current`, when it stays
/// within `maximum`.
pub open spec fn reservation(current: usize, frame_bytes: usize, maximum: usize) -> Option<usize> {
    if current + frame_bytes <= maximum {
        Some((current + frame_bytes) as usize)
    } else {
        None
    }
}

/// The queued byte count after adding `frame_bytes`, if it stays within `maximum`.
pub fn next_reservation(current: usize, frame_bytes: usize, maximum: usize) -> (r: Option<usize>)
    ensures
        r == reservation(current, frame_bytes, maximum),
{
    match current.checked_add(frame_bytes) {
        Some(next) => if next > maximum {
            None
        } else {
            Some(next)
        },
        None => None,
    }
}

/// Calls `AtomicUsize::fetch_update` with [`next_reservation`]: `Ok` with the
/// count before when the update was made, `Err` with the count that refused it.
#[verifier::external_body]
fn update_reservation(counter: &AtomicUsize, frame_bytes: usize, maximum: usize) -> (r: Result<
    usize,
    usize,
>)
    ensures
        r matches Ok(before) ==> reservation(before, frame_bytes, maximum) is Some,
        r matches Err(current) ==> reservation(current, frame_bytes, maximum) is None,
{
    counter.fetch_update(
        Ordering::AcqRel,
        Ordering::Acquire,
        |current| next_reservation(current, frame_bytes, maximum),
    )
}

/// Adds `frame_bytes` to the queued count unless that would pass `maximum`.
fn reserve_bytes(queued: &AtomicUsize, frame_bytes: usize, maximum: usize) -> (r: Result<
    (),
    TransportError,
>)
    ensures
        r matches Err(error) ==> (error matches TransportError::ByteLimit { maximum: m } && m
            == maximum),
        frame_bytes > maximum ==> r is Err,
        r is Ok ==> frame_bytes <= maximum,
{
    match update_reservation(queued, frame_bytes, maximum) {
        Ok(_) => Ok(()),
        Err(_) => Err(TransportError::ByteLimit { maximum }),
    }
}

/// The error that answers a frame the queue refused, and the length of that
/// frame: a full queue is `QueueFull`, a gone peer is `Disconnected`.
fn refusal(failure: SendFailure) -> (r: (usize, TransportError))
    ensures
        failure matches SendFailure::Full(back) ==> r.0 == back@.len() && r.1 is QueueFull,
        failure matches SendFailure::Disconnected(back) ==> r.0 == back@.len()
            && r.1 is Disconnected,
{
    match failure {
        SendFailure::Full(back) => (back.len(), TransportError::QueueFull),
        SendFailure::Disconnected(back) => (back.len(), TransportError::Disconnected),
    }
}

/// One end of an in-memory transport.
pub struct MemoryEndpoint {
    codec: Codec,
    sender: std::sync::mpsc::SyncSender<Vec<u8>>,
    receiver: std::sync::mpsc::Receiver<Vec<u8>>,
    outgoing_bytes: Arc<AtomicUsize>,
    incoming_bytes: Arc<AtomicUsize>,
    maximum_queued_bytes: usize,
}

impl MemoryEndpoint {
    /// The frame body size that this end's codec allows.
    pub closed spec fn frame_limit(&self) -> usize {
        self.codec.limit()
    }

    /// The number of bytes that may wait in this end's outgoing queue.
    pub closed spec fn byte_limit(&self) -> usize {
        self.maximum_queued_bytes
    }

    /// Frames `body` and queues it for the peer without blocking: refused when
    /// the body is over the frame limit, when the frame would pass the queued
    /// byte limit, when the frame queue is full, or when the peer is gone.
    pub fn send(&self, body: &[u8]) -> (r: Result<(), TransportError>)
        ensures
            body@.len() > self.frame_limit() ==> (r matches Err(
                TransportError::Protocol(ProtocolError::FrameTooLarge { actual, maximum }),
            ) && actual == body@.len() && maximum == self.frame_limit()),
            body@.len() <= self.frame_limit() && frame_spec(body@).len() > self.byte_limit() ==> (
            r matches Err(TransportError::ByteLimit { maximum }) && maximum == self.byte_limit()),
            r matches Err(TransportError::Protocol(_)) ==> body@.len() > self.frame_limit(),
            r matches Err(TransportError::ByteLimit { maximum }) ==> maximum == self.byte_limit()
                && body@.len() <= self.frame_limit(),
            (r is Ok || r matches Err(TransportError::QueueFull) || r matches Err(
                TransportError::Disconnected,
            )) ==> body@.len() <= self.frame_limit() && frame_spec(body@).len()
                <= self.byte_limit(),
    {
        let frame = match self.codec.encode_frame(body) {
            Ok(frame) => frame,
            Err(error) => {
                return Err(TransportError::Protocol(error));
            },
        };
        let size = frame.len();
        match reserve_bytes(&*self.outgoing_bytes, size, self.maximum_queued_bytes) {
            Ok(()) => {},
            Err(error) => {
                return Err(error);
            },
        }
        match try_send_frame(&self.sender, frame) {
            Ok(()) => Ok(()),
            Err(failure) => {
                let (returned, error) = refusal(failure);
                (&*self.outgoing_bytes).fetch_sub(returned, Ordering::AcqRel);
                Err(error)
            },
        }
    }

    /// Takes the next frame from the peer without blocking and returns its
    /// body; `None` when nothing is queued.
    pub fn try_receive(&self) -> (r: Result<Option<Vec<u8>>, TransportError>)
        ensures
            r matches Ok(Some(body)) ==> 0 < body@.len() <= self.frame_limit(),
            r matches Err(error) ==> (error is Disconnected || error is Protocol),
    {
        let frame = match try_receive_frame(&self.receiver) {
            Ok(frame) => frame,
            Err(ReceiveFailure::Empty) => {
                return Ok(None);
            },
            Err(ReceiveFailure::Disconnected) => {
                return Err(TransportError::Disconnected);
            },
        };
        (&*self.incoming_bytes).fetch_sub(frame.len(), Ordering::AcqRel);
        match self.codec.decode_frame(frame.as_slice()) {
            Ok((body, _)) => {
                proof {
                    assert(is_frame_body(self.frame_limit(), frame@, body@));
                }
                Ok(Some(body))
            },
            Err(error) => Err(TransportError::Protocol(error)),
        }
    }

    /// The bytes waiting in this end's outgoing queue.
    pub fn outgoing_queued_bytes(&self) -> (r: usize) {
        (&*self.outgoing_bytes).load(Ordering::Acquire)
    }
}

/// Two joined endpoints, each direction holding at most `maximum_queued_frames`
/// frames and `maximum_queued_bytes` bytes.
pub fn memory_transport(maximum_queued_frames: usize, maximum_queued_bytes: usize, codec: Codec) -> (r:
    (MemoryEndpoint, MemoryEndpoint))
    ensures
        r.0.frame_limit() == codec.limit(),
        r.1.frame_limit() == codec.limit(),
        r.0.byte_limit() == maximum_queued_bytes,
        r.1.byte_limit() == maximum_queued_bytes,
{
    let (left_sender, right_receiver) = frame_channel(maximum_queued_frames);
    let (right_sender, left_receiver) = frame_channel(maximum_queued_frames);
    let left_to_right_bytes = Arc::new(AtomicUsize::new(0));
    let right_to_left_bytes = Arc::new(AtomicUsize::new(0));
    let left = MemoryEndpoint {
        codec: codec.clone(),
        sender: left_sender,
        receiver: left_receiver,
        outgoing_bytes: share(&left_to_right_bytes),
        incoming_bytes: share(&right_to_left_bytes),
        maximum_queued_bytes,
    };
    let right = MemoryEndpoint {
        codec,
        sender: right_sender,
        receiver: right_receiver,
        outgoing_bytes: right_to_left_bytes,
        incoming_bytes: left_to_right_bytes,
        maximum_queued_bytes,
    };
    (left, right)
}

} // verus!
