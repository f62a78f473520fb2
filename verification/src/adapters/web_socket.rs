//! What a web socket adapter does about the outcome of its calls.

use crate::address::SocketAddr;
use crate::status::{AcceptStatus, ErrorKind, ReadStatus, SendStatus};
use vstd::prelude::*;
use vstd::slice::slice_to_vec;

verus! {

/// A web socket message.
#[derive(Debug)]
pub enum Message {
    /// Binary data.
    Binary(Vec<u8>),
    /// The remote closes the connection.
    Close,
    /// Any other message: text, or one that keeps the connection alive.
    Other,
}

/// Why a call on a web socket failed.
#[derive(Clone, Copy, PartialEq, Eq, Debug, Structural)]
pub enum WsError {
    /// The stream below failed.
    Io(ErrorKind),
    /// Any other failure.
    Other,
}

/// Adapts web sockets.
pub struct WsAdapter;

impl WsAdapter {
    /// Splits the adapter into the part that acts and the part that handles events.
    pub fn split(self) -> (parts: (WsActionHandler, WsEventHandler))
        ensures
            parts == (WsActionHandler, WsEventHandler),
    {
        (WsActionHandler, WsEventHandler)
    }
}

/// What to do after a write.
#[derive(Clone, Copy, PartialEq, Eq, Debug, Structural)]
pub enum WriteStep {
    /// Sending is over, with this status.
    Finish(SendStatus),
    /// Write what is still pending.
    WritePending,
}

/// What to do after a write that ended with `written`. A write that would have to wait is
/// followed by another, any other failure means that the resource is gone.
pub open spec fn after_write(written: Result<(), WsError>) -> WriteStep {
    match written {
        Ok(_) => WriteStep::Finish(SendStatus::Sent),
        Err(WsError::Io(ErrorKind::WouldBlock)) => WriteStep::WritePending,
        Err(_) => WriteStep::Finish(SendStatus::ResourceNotFound),
    }
}

/// The status with which sending ends whose writes end with `writes`, one after the other, if it
/// ends with one of them.
pub open spec fn send_status(writes: Seq<Result<(), WsError>>) -> Option<SendStatus>
    decreases writes.len(),
{
    if writes.len() == 0 {
        None
    } else {
        match after_write(writes[0]) {
            WriteStep::Finish(status) => Some(status),
            WriteStep::WritePending => send_status(writes.drop_first()),
        }
    }
}

/// Whether a write would have to wait.
pub open spec fn must_wait(written: Result<(), WsError>) -> bool {
    written == Err::<(), WsError>(WsError::Io(ErrorKind::WouldBlock))
}

/// Sending goes on for as long as the writes would have to wait. The first that would not decides
/// the status: the message is sent if that write succeeds, and the resource is gone otherwise.
pub proof fn law_first_decision_counts(writes: Seq<Result<(), WsError>>, i: int)
    requires
        0 <= i < writes.len(),
        forall|j: int| 0 <= j < i ==> must_wait(#[trigger] writes[j]),
        !must_wait(writes[i]),
    ensures
        send_status(writes) == Some(
            if writes[i] is Ok {
                SendStatus::Sent
            } else {
                SendStatus::ResourceNotFound
            },
        ),
    decreases i,
{
    if 0 < i {
        assert(must_wait(writes[0]));
        let rest = writes.drop_first();
        assert forall|j: int| 0 <= j < i - 1 implies must_wait(#[trigger] rest[j]) by {
            assert(must_wait(writes[j + 1]));
        }
        law_first_decision_counts(rest, i - 1);
    }
}

/// Sending does not end while every write would have to wait.
pub proof fn law_no_decision_no_end(writes: Seq<Result<(), WsError>>)
    requires
        forall|j: int| 0 <= j < writes.len() ==> must_wait(#[trigger] writes[j]),
    ensures
        send_status(writes) is None,
    decreases writes.len(),
{
    if 0 < writes.len() {
        assert(must_wait(writes[0]));
        let rest = writes.drop_first();
        assert forall|j: int| 0 <= j < rest.len() implies must_wait(#[trigger] rest[j]) by {
            assert(must_wait(writes[j + 1]));
        }
        law_no_decision_no_end(rest);
    }
}

/// Connects, listens and sends.
pub struct WsActionHandler;

impl WsActionHandler {
    /// Returns the message in which `data` is sent.
    pub fn message(&mut self, data: &[u8]) -> (message: Message)
        ensures
            message matches Message::Binary(sent) && sent@ == data@,
    {
        Message::Binary(slice_to_vec(data))
    }

    /// Decides what to do after a write that ended with `written`.
    pub fn send(&mut self, written: Result<(), WsError>) -> (step: WriteStep)
        ensures
            step == after_write(written),
    {
        match written {
            Ok(_) => WriteStep::Finish(SendStatus::Sent),
            Err(WsError::Io(ErrorKind::WouldBlock)) => WriteStep::WritePending,
            Err(_) => WriteStep::Finish(SendStatus::ResourceNotFound),
        }
    }
}

/// Accepts connections and reads messages.
pub struct WsEventHandler;

impl WsEventHandler {
    /// Returns the status of a listener whose accept ended with `accepted`: the remote and its
    /// address, or a failure.
    pub fn accept_event<R>(
        &mut self,
        accepted: Result<(R, SocketAddr), ErrorKind>,
    ) -> (status: AcceptStatus<R>)
        ensures
            status == match accepted {
                Ok((remote, addr)) => AcceptStatus::AcceptedRemote(addr, remote),
                Err(ErrorKind::Interrupted) => AcceptStatus::Interrupted,
                Err(_) => AcceptStatus::WaitNextEvent,
            },
    {
        match accepted {
            Ok((remote, addr)) => AcceptStatus::AcceptedRemote(addr, remote),
            Err(ErrorKind::WouldBlock) => AcceptStatus::WaitNextEvent,
            Err(ErrorKind::Interrupted) => AcceptStatus::Interrupted,
            Err(_) => AcceptStatus::WaitNextEvent,
        }
    }

    /// Returns the status of a web socket whose read ended with `read`, and the data to process.
    /// Only a binary message brings data; the other messages but `Close` are passed over.
    pub fn read_event(&mut self, read: Result<Message, WsError>) -> (outcome: (
        ReadStatus,
        Option<Vec<u8>>,
    ))
        ensures
            outcome == match read {
                Ok(Message::Binary(data)) => (ReadStatus::MoreData, Some(data)),
                Ok(Message::Close) => (ReadStatus::Disconnected, None),
                Ok(Message::Other) => (ReadStatus::MoreData, None),
                Err(WsError::Io(ErrorKind::WouldBlock)) => (ReadStatus::WaitNextEvent, None),
                Err(_) => (ReadStatus::Disconnected, None),
            },
    {
        match read {
            Ok(message) => match message {
                Message::Binary(data) => (ReadStatus::MoreData, Some(data)),
                Message::Close => (ReadStatus::Disconnected, None),
                Message::Other => (ReadStatus::MoreData, None),
            },
            Err(WsError::Io(ErrorKind::WouldBlock)) => (ReadStatus::WaitNextEvent, None),
            Err(_) => (ReadStatus::Disconnected, None),
        }
    }
}

/// The bytes of a message that carries data are the data, all of it and in its order.
pub proof fn law_message_carries_the_data(
    handler: &mut WsActionHandler,
    data: &[u8],
    message: Message,
)
    requires
        call_ensures(WsActionHandler::message, (handler, data), message),
    ensures
        message is Binary,
        message->Binary_0@.len() == data@.len(),
        forall|i: int| 0 <= i < data@.len() ==> message->Binary_0@[i] == #[trigger] data@[i],
{
}

/// A write that succeeds means that the message is sent, and only such a write does. A write that
/// would have to wait is followed by another, and only such a write is. After any other failure the
/// resource is taken for gone.
pub proof fn law_write_decides(
    handler: &mut WsActionHandler,
    written: Result<(), WsError>,
    step: WriteStep,
)
    requires
        call_ensures(WsActionHandler::send, (handler, written), step),
    ensures
        written is Ok <==> step == WriteStep::Finish(SendStatus::Sent),
        written matches Err(error) ==> (error == WsError::Io(ErrorKind::WouldBlock) <==> step
            == WriteStep::WritePending),
        written matches Err(error) ==> (error != WsError::Io(ErrorKind::WouldBlock) <==> step
            == WriteStep::Finish(SendStatus::ResourceNotFound)),
{
}

/// Every remote that is accepted is handed on with its address. A failure is told apart only where
/// the call was interrupted: otherwise the next event is waited for.
pub proof fn law_accepted_remote_is_handed_on<R>(
    handler: &mut WsEventHandler,
    accepted: Result<(R, SocketAddr), ErrorKind>,
    status: AcceptStatus<R>,
)
    requires
        call_ensures(WsEventHandler::accept_event::<R>, (handler, accepted), status),
    ensures
        accepted matches Ok(pair) ==> status == AcceptStatus::AcceptedRemote(pair.1, pair.0),
        accepted matches Err(kind) ==> kind == ErrorKind::Interrupted ==> status
            == AcceptStatus::<R>::Interrupted,
        accepted matches Err(kind) ==> kind != ErrorKind::Interrupted ==> status
            == AcceptStatus::<R>::WaitNextEvent,
{
}

/// The data of every binary message is processed, and reading goes on; no other reading brings data.
/// The remote is gone exactly after a message that closes the connection, or a failure other than
/// that the call would have to wait, which alone makes the handler wait for the next event.
pub proof fn law_data_is_handed_on(
    handler: &mut WsEventHandler,
    read: Result<Message, WsError>,
    outcome: (ReadStatus, Option<Vec<u8>>),
)
    requires
        call_ensures(WsEventHandler::read_event, (handler, read), outcome),
    ensures
        outcome.1 matches Some(data) ==> read == Ok::<Message, WsError>(Message::Binary(data)),
        read matches Ok(Message::Binary(data)) ==> outcome == (ReadStatus::MoreData, Some(data)),
        outcome.0 == ReadStatus::WaitNextEvent <==> (read matches Err(error) && error
            == WsError::Io(ErrorKind::WouldBlock)),
        outcome.0 == ReadStatus::Disconnected <==> (read matches Ok(message) && message is Close)
            || (read matches Err(error) && error != WsError::Io(ErrorKind::WouldBlock)),
{
}

} // verus!
