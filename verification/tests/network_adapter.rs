use message_io::address::{SocketAddr, SocketAddrV4, SocketAddrV6};
use message_io::network_adapter::{
    adapter, Call, Controller, Endpoint, Event, Listener, Membership, PollStep, Polled, Receiver,
    Remote, Reply, Resource, Step, Transmission, UnknownResource,
};
use message_io::status::ErrorKind;

fn v4(ip: u32, port: u16) -> SocketAddr {
    SocketAddr::V4(SocketAddrV4 { ip, port })
}

fn local() -> SocketAddr {
    v4(0x7f00_0001, 5000)
}

fn peer() -> SocketAddr {
    v4(0x7f00_0001, 6000)
}

fn other() -> SocketAddr {
    SocketAddr::V6(SocketAddrV6 { ip: 1, port: 7000, flowinfo: 0, scope_id: 0 })
}

/// A controller with a TCP listener, a UDP listener, a TCP remote and a UDP remote, in this order.
fn sample() -> (Controller, Receiver, Endpoint, Endpoint) {
    let (mut controller, receiver) = adapter();
    assert_eq!(controller.add_listener(Listener::new_tcp(local())), (0, local()));
    assert_eq!(controller.add_listener(Listener::new_udp(local())), (1, local()));
    let tcp = controller.add_remote(Remote::new_tcp(local(), peer()));
    let udp = controller.add_remote(Remote::new_udp(local(), other()));
    (controller, receiver, tcp, udp)
}

fn turn(receiver: &mut Receiver, id: usize) {
    assert_eq!(receiver.receive(Polled::Ready(vec![id])), PollStep::Process);
}

#[test]
fn ids_count_up_and_do_not_return() {
    let (mut controller, _, tcp, udp) = sample();
    assert_eq!((tcp.resource_id(), tcp.addr()), (2, peer()));
    assert_eq!((udp.resource_id(), udp.addr()), (3, other()));
    assert_eq!(controller.remove_resource(3), Some(()));
    assert_eq!(controller.remove_resource(3), None);
    assert_eq!(controller.remove_resource(9), None);
    assert_eq!(controller.add_remote(Remote::Udp(local(), peer())).resource_id(), 4);
    assert_eq!(controller.resource(3), None);
    assert_eq!(
        controller.resource(4),
        Some(Resource::Remote(Remote::Udp(local(), peer())))
    );
}

#[test]
fn local_address_of_resources() {
    let (mut controller, _) = adapter();
    controller.add_listener(Listener::Tcp(local()));
    controller.add_remote(Remote::Tcp(other(), peer()));
    assert_eq!(controller.local_address(0), Some(local()));
    assert_eq!(controller.local_address(1), Some(other()));
    assert_eq!(controller.local_address(2), None);
}

#[test]
fn send_goes_through_the_resource_of_the_endpoint() {
    let (mut controller, mut receiver, tcp, udp) = sample();
    let data = [1u8, 2, 3];
    match controller.send(tcp, &data) {
        Ok(Transmission::Write { resource_id, data }) => {
            assert_eq!((resource_id, data), (2, &[1u8, 2, 3][..]))
        }
        way => panic!("unexpected way: {:?}", way),
    }
    match controller.send(udp, &data) {
        Ok(Transmission::Send { resource_id, data }) => {
            assert_eq!((resource_id, data), (3, &[1u8, 2, 3][..]))
        }
        way => panic!("unexpected way: {:?}", way),
    }
    turn(&mut receiver, 1);
    let endpoint = match receiver.process_event(
        &mut controller,
        Reply::ReceivedFrom(3, other()),
        &data,
    ) {
        Step::Report(endpoint, _) => endpoint,
        step => panic!("unexpected step: {:?}", step),
    };
    match controller.send(endpoint, &data) {
        Ok(Transmission::SendTo { resource_id, data, addr }) => {
            assert_eq!((resource_id, data, addr), (1, &[1u8, 2, 3][..], other()))
        }
        way => panic!("unexpected way: {:?}", way),
    }
}

#[test]
fn send_to_a_resource_that_is_gone() {
    let (mut controller, _, tcp, _) = sample();
    controller.remove_resource(tcp.resource_id());
    match controller.send(tcp, &[]) {
        Err(error) => {
            assert_eq!(error, UnknownResource { resource_id: 2 });
            assert_eq!(error.kind(), ErrorKind::NotFound);
            assert_eq!(error.message(), "Resource id '2' not exists in the network adapter");
        }
        way => panic!("unexpected way: {:?}", way),
    }
    let error = UnknownResource { resource_id: 18446744073709551615 };
    assert_eq!(
        error.message(),
        "Resource id '18446744073709551615' not exists in the network adapter"
    );
}

#[test]
fn descriptions() {
    let (controller, _, tcp, _) = sample();
    assert_eq!(tcp.describe("127.0.0.1:6000"), "[2]-127.0.0.1:6000");
    let texts: Vec<&str> = (0..4).map(|id| controller.resource(id).unwrap().describe()).collect();
    assert_eq!(texts, vec!["Listener::Tcp", "Listener::Udp", "Remote::Tcp", "Remote::Udp"]);
    let (mut controller, _) = adapter();
    for _ in 0..1024 {
        controller.add_listener(Listener::Tcp(local()));
    }
    let endpoint = controller.add_remote(Remote::Tcp(local(), peer()));
    assert_eq!(endpoint.describe("x"), "[1024]-x");
}

#[test]
fn addresses_of_listeners_and_remotes() {
    assert_eq!(Listener::new_tcp(local()).local_addr(), local());
    assert_eq!(Listener::new_udp(other()).local_addr(), other());
    let remote = Remote::new_tcp(local(), peer());
    assert_eq!((remote.local_addr(), remote.peer_addr()), (local(), peer()));
    let remote = Remote::new_udp(other(), local());
    assert_eq!((remote.local_addr(), remote.peer_addr()), (other(), local()));
    assert_eq!(Resource::Remote(remote).local_addr(), other());
    assert_eq!(Resource::Listener(Listener::Tcp(peer())).local_addr(), peer());
}

#[test]
fn multicast_listeners() {
    let group = SocketAddrV4 { ip: 0xef01_0203, port: 3010 };
    let plan = Listener::new_udp_multicast(group);
    assert_eq!(plan.listen, SocketAddrV4 { ip: 0, port: 3010 });
    assert_eq!(plan.join, Membership { group: 0xef01_0203, interface: 0 });
    let leave = |ip: u32| Listener::Udp(v4(ip, 1)).multicast_to_leave();
    assert_eq!(leave(0xdfff_ffff), None);
    assert_eq!(leave(0xe000_0000), Some(Membership { group: 0xe000_0000, interface: 0 }));
    assert_eq!(leave(0xefff_ffff), Some(Membership { group: 0xefff_ffff, interface: 0 }));
    assert_eq!(leave(0xf000_0000), None);
    assert_eq!(leave(0), None);
    assert_eq!(Listener::Tcp(v4(0xe000_0001, 1)).multicast_to_leave(), None);
    assert_eq!(Listener::Udp(other()).multicast_to_leave(), None);
}

#[test]
fn polls_that_fail() {
    let (_, mut receiver) = adapter();
    assert_eq!(receiver.receive(Polled::Failed(ErrorKind::Interrupted)), PollStep::Retry);
    assert_eq!(receiver.receive(Polled::Failed(ErrorKind::WouldBlock)), PollStep::Fail);
    assert_eq!(receiver.receive(Polled::Failed(ErrorKind::Other)), PollStep::Fail);
    assert_eq!(receiver.current(), None);
}

#[test]
fn ready_resources_get_their_turns_in_order() {
    let (mut controller, mut receiver, _, _) = sample();
    assert_eq!(receiver.receive(Polled::Ready(vec![3, 0, 2, 1])), PollStep::Process);
    let mut calls = Vec::new();
    while let Some(id) = receiver.current() {
        calls.push((id, receiver.next_call(&controller)));
        let step =
            receiver.process_event(&mut controller, Reply::Failed(ErrorKind::WouldBlock), &[]);
        assert!(matches!(step, Step::Done));
    }
    assert_eq!(
        calls,
        vec![(3, Call::Receive), (0, Call::Accept), (2, Call::Read), (1, Call::ReceiveFrom)]
    );
}

#[test]
fn tcp_listener_events() {
    let (mut controller, mut receiver, _, _) = sample();
    turn(&mut receiver, 0);
    match receiver.process_event(&mut controller, Reply::Accepted(local(), other()), &[]) {
        Step::Report(endpoint, Event::Connection) => {
            assert_eq!((endpoint.resource_id(), endpoint.addr()), (4, other()))
        }
        step => panic!("unexpected step: {:?}", step),
    }
    assert_eq!(
        controller.resource(4),
        Some(Resource::Remote(Remote::Tcp(local(), other())))
    );
    assert_eq!(receiver.current(), Some(0));
    let mut failed = |kind| receiver.process_event(&mut controller, Reply::Failed(kind), &[]);
    assert!(matches!(failed(ErrorKind::Interrupted), Step::Repeat));
    assert!(matches!(failed(ErrorKind::ConnectionRefused), Step::Fail));
    assert!(matches!(failed(ErrorKind::Other), Step::Fail));
    assert!(matches!(failed(ErrorKind::WouldBlock), Step::Done));
    assert_eq!(receiver.current(), None);
}

#[test]
fn udp_listener_events() {
    let (mut controller, mut receiver, _, _) = sample();
    turn(&mut receiver, 1);
    let buffer = [7u8, 8, 9];
    match receiver.process_event(&mut controller, Reply::ReceivedFrom(2, other()), &buffer) {
        Step::Report(endpoint, Event::Data(data)) => {
            assert_eq!((endpoint.resource_id(), endpoint.addr()), (1, other()));
            assert_eq!(data, &[7u8, 8, 9][..]);
        }
        step => panic!("unexpected step: {:?}", step),
    }
    let mut failed = |kind| receiver.process_event(&mut controller, Reply::Failed(kind), &[]);
    assert!(matches!(failed(ErrorKind::Interrupted), Step::Fail));
    assert!(matches!(failed(ErrorKind::ConnectionRefused), Step::Fail));
    assert!(matches!(failed(ErrorKind::WouldBlock), Step::Done));
}

#[test]
fn tcp_remote_events() {
    let (mut controller, mut receiver, tcp, _) = sample();
    turn(&mut receiver, 2);
    match receiver.process_event(&mut controller, Reply::Received(1), &[5, 0]) {
        Step::Report(endpoint, Event::Data(data)) => {
            assert_eq!(endpoint, tcp);
            assert_eq!(data, &[5u8, 0][..]);
        }
        step => panic!("unexpected step: {:?}", step),
    }
    let mut failed = |kind| receiver.process_event(&mut controller, Reply::Failed(kind), &[]);
    assert!(matches!(failed(ErrorKind::Interrupted), Step::Repeat));
    assert!(matches!(failed(ErrorKind::ConnectionRefused), Step::Fail));
    match receiver.process_event(&mut controller, Reply::Received(0), &[5, 0]) {
        Step::ReportLast(endpoint, Event::Disconnection) => assert_eq!(endpoint, tcp),
        step => panic!("unexpected step: {:?}", step),
    }
    assert_eq!(receiver.current(), None);
    assert_eq!(controller.resource(2), None);
    assert!(controller.send(tcp, &[]).is_err());
}

#[test]
fn udp_remote_events() {
    let (mut controller, mut receiver, _, udp) = sample();
    turn(&mut receiver, 3);
    match receiver.process_event(&mut controller, Reply::Received(0), &[4]) {
        Step::Report(endpoint, Event::Data(data)) => {
            assert_eq!(endpoint, udp);
            assert_eq!(data, &[4u8][..]);
        }
        step => panic!("unexpected step: {:?}", step),
    }
    let mut failed = |kind| receiver.process_event(&mut controller, Reply::Failed(kind), &[]);
    assert!(matches!(failed(ErrorKind::ConnectionRefused), Step::Repeat));
    assert!(matches!(failed(ErrorKind::Interrupted), Step::Fail));
    assert!(matches!(failed(ErrorKind::WouldBlock), Step::Done));
    assert!(controller.resource(3).is_some());
}

#[test]
fn ids_after_a_run_of_replies() {
    let (mut controller, mut receiver, tcp, udp) = sample();
    receiver.receive(Polled::Ready(vec![0, tcp.resource_id()]));
    let (mut came, mut went) = (Vec::new(), Vec::new());
    let replies = [
        Reply::Accepted(local(), other()),
        Reply::Accepted(local(), peer()),
        Reply::Failed(ErrorKind::WouldBlock),
        Reply::Received(3),
        Reply::Received(0),
    ];
    for reply in replies {
        match receiver.process_event(&mut controller, reply, &[1, 2, 3]) {
            Step::Report(endpoint, Event::Connection) => came.push(endpoint.resource_id()),
            Step::ReportLast(endpoint, Event::Disconnection) => went.push(endpoint.resource_id()),
            _ => {}
        }
    }
    assert_eq!(receiver.current(), None);
    assert_eq!(came, vec![4, 5]);
    assert_eq!(went, vec![tcp.resource_id()]);
    let left: Vec<usize> = (0..8).filter(|id| controller.resource(*id).is_some()).collect();
    assert_eq!(left, vec![0, 1, udp.resource_id(), 4, 5]);
}
