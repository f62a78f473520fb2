use message_io::adapters::web_socket::{Message, WriteStep, WsAdapter, WsError};
use message_io::address::{SocketAddr, SocketAddrV4};
use message_io::status::{AcceptStatus, ErrorKind, ReadStatus, SendStatus};

#[test]
fn data_is_sent_as_a_binary_message() {
    let (mut actions, _) = WsAdapter.split();
    match actions.message(&[1, 2, 3]) {
        Message::Binary(data) => assert_eq!(data, vec![1, 2, 3]),
        message => panic!("unexpected message: {:?}", message),
    }
}

#[test]
fn writes_go_on_until_one_decides() {
    let (mut actions, _) = WsAdapter.split();
    let waits = Err(WsError::Io(ErrorKind::WouldBlock));
    assert_eq!(actions.send(waits), WriteStep::WritePending);
    assert_eq!(actions.send(Ok(())), WriteStep::Finish(SendStatus::Sent));
    let gone = WriteStep::Finish(SendStatus::ResourceNotFound);
    assert_eq!(actions.send(Err(WsError::Io(ErrorKind::Interrupted))), gone);
    assert_eq!(actions.send(Err(WsError::Io(ErrorKind::Other))), gone);
    assert_eq!(actions.send(Err(WsError::Other)), gone);
}

#[test]
fn accept_status() {
    let (_, mut events) = WsAdapter.split();
    let addr = SocketAddr::V4(SocketAddrV4 { ip: 1, port: 2 });
    assert_eq!(events.accept_event(Ok(("remote", addr))), AcceptStatus::AcceptedRemote(addr, "remote"));
    let mut failed = |kind| events.accept_event::<&str>(Err(kind));
    assert_eq!(failed(ErrorKind::WouldBlock), AcceptStatus::WaitNextEvent);
    assert_eq!(failed(ErrorKind::Interrupted), AcceptStatus::Interrupted);
    assert_eq!(failed(ErrorKind::Other), AcceptStatus::WaitNextEvent);
}

#[test]
fn read_status() {
    let (_, mut events) = WsAdapter.split();
    assert_eq!(
        events.read_event(Ok(Message::Binary(vec![1, 2]))),
        (ReadStatus::MoreData, Some(vec![1, 2]))
    );
    assert_eq!(events.read_event(Ok(Message::Close)), (ReadStatus::Disconnected, None));
    assert_eq!(events.read_event(Ok(Message::Other)), (ReadStatus::MoreData, None));
    assert_eq!(
        events.read_event(Err(WsError::Io(ErrorKind::WouldBlock))),
        (ReadStatus::WaitNextEvent, None)
    );
    assert_eq!(
        events.read_event(Err(WsError::Io(ErrorKind::Interrupted))),
        (ReadStatus::Disconnected, None)
    );
    assert_eq!(events.read_event(Err(WsError::Other)), (ReadStatus::Disconnected, None));
}
