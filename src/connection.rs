//! What one ingestion connection does with the bytes it receives: decode
//! every complete frame, and decide whether to wait for more bytes or to
//! close.
use vstd::prelude::*;
use crate::frame::{decode_stream, NotificationReadError};
use crate::notifications::{holds_fields, Notification, NotificationReader};

verus! {

/// Why a connection ends.
#[derive(PartialEq, Eq, Structural, Clone, Copy, Debug)]
pub enum CloseReason {
    /// The peer closed the stream: the graceful end.
    EndOfStream,
    /// A frame could not be decoded; nothing of it was forwarded.
    Failed(NotificationReadError),
}

/// The next thing a connection does.
#[derive(PartialEq, Eq, Structural, Clone, Copy, Debug)]
pub enum ConnectionStep {
    /// Wait for more bytes from the peer.
    ReadMore,
    /// Close this connection, and only this one.
    Close(CloseReason),
}

/// Running out of bytes means waiting for more while the peer may still
/// send, and the end of the stream once it has closed; any other failure
/// closes the connection.
pub open spec fn step_after(stop: NotificationReadError, peer_closed: bool) -> ConnectionStep {
    if stop == NotificationReadError::NotificationReadEndOfFile {
        if peer_closed {
            ConnectionStep::Close(CloseReason::EndOfStream)
        } else {
            ConnectionStep::ReadMore
        }
    } else {
        ConnectionStep::Close(CloseReason::Failed(stop))
    }
}

/// The step once the held frames are decoded and `stop` tells why the next
/// one could not be.
pub fn after_frames(stop: NotificationReadError, peer_closed: bool) -> (r: ConnectionStep)
    ensures
        r == step_after(stop, peer_closed),
{
    match stop {
        NotificationReadError::NotificationReadEndOfFile => if peer_closed {
            ConnectionStep::Close(CloseReason::EndOfStream)
        } else {
            ConnectionStep::ReadMore
        },
        other => ConnectionStep::Close(CloseReason::Failed(other)),
    }
}

/// Takes the bytes that arrived on a connection (`peer_closed` once the peer
/// has closed it): the notifications of every frame they complete, in order,
/// to be appended to the state holder, and the connection's next step. A
/// frame that fails to decode yields nothing.
pub fn handle_bytes(reader: &mut NotificationReader, bytes: &[u8], peer_closed: bool) -> (r: (
    Vec<Notification>,
    ConnectionStep,
))
    requires
        old(reader).wf(),
    ensures
        final(reader).wf(),
        ({
            let (fs, m, e) = decode_stream(old(reader)@ + bytes@);
            &&& r.0@.len() == fs.len()
            &&& forall|i: int| 0 <= i < fs.len() ==> holds_fields(#[trigger] r.0@[i]@, fs[i])
            &&& r.1 == step_after(e, peer_closed)
            &&& final(reader)@ == (old(reader)@ + bytes@).subrange(m, (old(reader)@ + bytes@).len() as int)
        }),
{
    reader.push_bytes(bytes);
    let (notifications, stop) = reader.read_available();
    (notifications, after_frames(stop, peer_closed))
}

} // verus!
