//! The bookkeeping of network resources, and what to do about the events that they report.

use crate::address::{SocketAddr, SocketAddrV4, UNSPECIFIED};
use crate::status::ErrorKind;
use crate::text::push_decimal;
use std::collections::HashMap;
use vstd::prelude::*;
use vstd::string::StringExecFns;

verus! {

broadcast use vstd::std_specs::hash::group_hash_axioms;

/// Information to identify the remote endpoint.
/// The endpoint is used mainly as a connection identified.
#[derive(Clone, Copy, PartialEq, Eq, Hash, Debug, Structural)]
pub struct Endpoint {
    resource_id: usize,
    addr: SocketAddr,
}

impl Endpoint {
    /// The endpoint at `addr` that the resource `resource_id` reaches.
    pub closed spec fn of(resource_id: usize, addr: SocketAddr) -> Endpoint {
        Endpoint { resource_id, addr }
    }

    /// The resource that reaches the endpoint.
    pub closed spec fn resource(&self) -> usize {
        self.resource_id
    }

    /// The remote address.
    pub closed spec fn remote(&self) -> SocketAddr {
        self.addr
    }

    fn new(resource_id: usize, addr: SocketAddr) -> (endpoint: Endpoint)
        ensures
            endpoint == Endpoint::of(resource_id, addr),
    {
        Endpoint { resource_id, addr }
    }

    /// Returns the connection id of the endpoint.
    /// The connection id represents the inner network resource used for this endpoint.
    /// It not must to be unique for each endpoint if some of them shared the resource.
    pub fn resource_id(&self) -> (id: usize)
        ensures
            id == self.resource(),
    {
        self.resource_id
    }

    /// Returns the remote address of the endpoint
    pub fn addr(&self) -> (addr: SocketAddr)
        ensures
            addr == self.remote(),
    {
        self.addr
    }

    /// Returns the endpoint as text, with `addr` as the text of its remote address.
    pub fn describe(&self, addr: &str) -> (text: String)
        ensures
            text@ == "["@ + crate::text::decimal(self.resource() as nat) + "]-"@ + addr@,
    {
        let mut text = String::from_str("[");
        push_decimal(&mut text, self.resource_id);
        text.append("]-");
        text.append(addr);
        text
    }
}

/// An endpoint is what its resource and its remote address make it.
pub proof fn lemma_endpoint(resource_id: usize, addr: SocketAddr)
    ensures
        Endpoint::of(resource_id, addr).resource() == resource_id,
        Endpoint::of(resource_id, addr).remote() == addr,
        forall|endpoint: Endpoint|
            #![trigger endpoint.resource()]
            #![trigger endpoint.remote()]
            Endpoint::of(endpoint.resource(), endpoint.remote()) == endpoint,
{
}

/// What happened at an endpoint.
#[derive(Debug)]
pub enum Event<'a> {
    Connection,
    Data(&'a [u8]),
    Disconnection,
}

/// The part that a socket takes in a multicast group: the group and the interface, both as IPv4
/// addresses.
#[derive(Clone, Copy, PartialEq, Eq, Debug, Structural)]
pub struct Membership {
    pub group: u32,
    pub interface: u32,
}

/// How to listen to a multicast group: where to bind the socket, with its address reusable, and
/// what to join then.
#[derive(Clone, Copy, PartialEq, Eq, Debug, Structural)]
pub struct MulticastPlan {
    pub listen: SocketAddrV4,
    pub join: Membership,
}

/// A socket that waits for remotes, with its local address.
#[derive(Clone, Copy, PartialEq, Eq, Debug, Structural)]
pub enum Listener {
    Tcp(SocketAddr),
    Udp(SocketAddr),
}

impl Listener {
    /// The local address.
    pub open spec fn local(self) -> SocketAddr {
        match self {
            Listener::Tcp(local) => local,
            Listener::Udp(local) => local,
        }
    }

    /// A TCP listener that is bound to `local`.
    pub fn new_tcp(local: SocketAddr) -> (listener: Listener)
        ensures
            listener == Listener::Tcp(local),
    {
        Listener::Tcp(local)
    }

    /// A UDP listener that is bound to `local`.
    pub fn new_udp(local: SocketAddr) -> (listener: Listener)
        ensures
            listener == Listener::Udp(local),
    {
        Listener::Udp(local)
    }

    /// Plans a UDP listener for the multicast group `addr`: it listens at the port of the group on
    /// every interface, and joins the group there.
    pub fn new_udp_multicast(addr: SocketAddrV4) -> (plan: MulticastPlan)
        ensures
            plan.listen == (SocketAddrV4 { ip: UNSPECIFIED, port: addr.port }),
            plan.join == (Membership { group: addr.ip, interface: UNSPECIFIED }),
    {
        MulticastPlan {
            listen: SocketAddrV4 { ip: UNSPECIFIED, port: addr.port },
            join: Membership { group: addr.ip, interface: UNSPECIFIED },
        }
    }

    /// Returns the local address.
    pub fn local_addr(&self) -> (local: SocketAddr)
        ensures
            local == self.local(),
    {
        match self {
            Listener::Tcp(local) => *local,
            Listener::Udp(local) => *local,
        }
    }

    /// Returns the multicast group that the listener must leave when it is dropped: that of its
    /// local address, if it is a UDP listener at an IPv4 multicast address.
    pub fn multicast_to_leave(&self) -> (membership: Option<Membership>)
        ensures
            membership == match *self {
                Listener::Udp(SocketAddr::V4(addr)) if crate::address::is_multicast_ip(
                    addr.ip,
                ) => Some(Membership { group: addr.ip, interface: UNSPECIFIED }),
                _ => None,
            },
    {
        if let Listener::Udp(SocketAddr::V4(addr)) = self {
            if addr.is_multicast() {
                return Some(Membership { group: addr.ip, interface: UNSPECIFIED });
            }
        }
        None
    }
}

/// A socket that is connected to one remote, with its local address and that of its peer.
#[derive(Clone, Copy, PartialEq, Eq, Debug, Structural)]
pub enum Remote {
    Tcp(SocketAddr, SocketAddr),
    Udp(SocketAddr, SocketAddr),
}

impl Remote {
    /// The local address.
    pub open spec fn local(self) -> SocketAddr {
        match self {
            Remote::Tcp(local, _) => local,
            Remote::Udp(local, _) => local,
        }
    }

    /// The address of the peer.
    pub open spec fn peer(self) -> SocketAddr {
        match self {
            Remote::Tcp(_, peer) => peer,
            Remote::Udp(_, peer) => peer,
        }
    }

    /// A TCP connection from `local` to `peer`.
    pub fn new_tcp(local: SocketAddr, peer: SocketAddr) -> (remote: Remote)
        ensures
            remote == Remote::Tcp(local, peer),
    {
        Remote::Tcp(local, peer)
    }

    /// A UDP socket at `local` that sends to `peer`.
    pub fn new_udp(local: SocketAddr, peer: SocketAddr) -> (remote: Remote)
        ensures
            remote == Remote::Udp(local, peer),
    {
        Remote::Udp(local, peer)
    }

    /// Returns the local address.
    pub fn local_addr(&self) -> (local: SocketAddr)
        ensures
            local == self.local(),
    {
        match self {
            Remote::Tcp(local, _) => *local,
            Remote::Udp(local, _) => *local,
        }
    }

    /// Returns the address of the peer.
    pub fn peer_addr(&self) -> (peer: SocketAddr)
        ensures
            peer == self.peer(),
    {
        match self {
            Remote::Tcp(_, peer) => *peer,
            Remote::Udp(_, peer) => *peer,
        }
    }
}

/// A network resource.
#[derive(Clone, Copy, PartialEq, Eq, Debug, Structural)]
pub enum Resource {
    Listener(Listener),
    Remote(Remote),
}

impl Resource {
    /// The local address.
    pub open spec fn local(self) -> SocketAddr {
        match self {
            Resource::Listener(listener) => listener.local(),
            Resource::Remote(remote) => remote.local(),
        }
    }

    /// Returns the local address.
    pub fn local_addr(&self) -> (local: SocketAddr)
        ensures
            local == self.local(),
    {
        match self {
            Resource::Listener(listener) => listener.local_addr(),
            Resource::Remote(remote) => remote.local_addr(),
        }
    }

    /// Returns the kind of the resource as text.
    pub fn describe(&self) -> (text: &'static str)
        ensures
            text@ == match *self {
                Resource::Listener(Listener::Tcp(_)) => "Listener::Tcp"@,
                Resource::Listener(Listener::Udp(_)) => "Listener::Udp"@,
                Resource::Remote(Remote::Tcp(_, _)) => "Remote::Tcp"@,
                Resource::Remote(Remote::Udp(_, _)) => "Remote::Udp"@,
            },
    {
        match self {
            Resource::Listener(listener) => match listener {
                Listener::Tcp(_) => "Listener::Tcp",
                Listener::Udp(_) => "Listener::Udp",
            },
            Resource::Remote(remote) => match remote {
                Remote::Tcp(_, _) => "Remote::Tcp",
                Remote::Udp(_, _) => "Remote::Udp",
            },
        }
    }
}

/// Creates a controller without resources, and the receiver for the events of its resources.
pub fn adapter() -> (pair: (Controller, Receiver))
    ensures
        pair.0@ == Registry::empty(),
        pair.1@ == Seq::<usize>::empty(),
{
    (Controller::new(), Receiver::new())
}

/// The resources that a controller keeps, by their ids, and the id that comes next.
pub struct Registry {
    pub resources: Map<usize, Resource>,
    pub next_id: usize,
}

impl Registry {
    /// No resource has been added yet.
    pub open spec fn empty() -> Registry {
        Registry { resources: Map::empty(), next_id: 0 }
    }

    /// Ids are given out in order: every id in use came before the next.
    pub open spec fn in_order(self) -> bool {
        forall|id: usize| #[trigger] self.resources.contains_key(id) ==> id < self.next_id
    }

    /// The registry after `resource` was added.
    pub open spec fn with(self, resource: Resource) -> Registry {
        Registry {
            resources: self.resources.insert(self.next_id, resource),
            next_id: (self.next_id + 1) as usize,
        }
    }

    /// The registry after the resource `id` was removed.
    pub open spec fn without(self, id: usize) -> Registry {
        Registry { resources: self.resources.remove(id), next_id: self.next_id }
    }

    /// Whether `endpoint` belongs to a TCP listener, through which nothing can be sent.
    pub open spec fn is_deaf(self, endpoint: Endpoint) -> bool {
        &&& self.resources.contains_key(endpoint.resource())
        &&& self.resources[endpoint.resource()] matches Resource::Listener(Listener::Tcp(_))
    }
}

/// How to send data to an endpoint.
#[derive(Debug)]
pub enum Transmission<'a> {
    /// Send a datagram from the UDP listener `resource_id` to an address.
    SendTo { resource_id: usize, data: &'a [u8], addr: SocketAddr },
    /// Write to the TCP stream `resource_id`.
    Write { resource_id: usize, data: &'a [u8] },
    /// Send a datagram through the connected UDP socket `resource_id`.
    Send { resource_id: usize, data: &'a [u8] },
}

/// How to send `data` to `endpoint` through its resource.
pub open spec fn transmission<'a>(
    resource: Resource,
    endpoint: Endpoint,
    data: &'a [u8],
) -> Transmission<'a> {
    let resource_id = endpoint.resource();
    match resource {
        Resource::Listener(_) => Transmission::SendTo {
            resource_id,
            data,
            addr: endpoint.remote(),
        },
        Resource::Remote(Remote::Tcp(_, _)) => Transmission::Write { resource_id, data },
        Resource::Remote(Remote::Udp(_, _)) => Transmission::Send { resource_id, data },
    }
}

/// There is no resource with the given id.
#[derive(Clone, Copy, PartialEq, Eq, Debug, Structural)]
pub struct UnknownResource {
    pub resource_id: usize,
}

impl UnknownResource {
    /// Returns the kind of the failure.
    pub fn kind(&self) -> (kind: ErrorKind)
        ensures
            kind == ErrorKind::NotFound,
    {
        ErrorKind::NotFound
    }

    /// Returns the failure as text.
    pub fn message(&self) -> (text: String)
        ensures
            text@ == "Resource id '"@ + crate::text::decimal(self.resource_id as nat)
                + "' not exists in the network adapter"@,
    {
        let mut text = String::from_str("Resource id '");
        push_decimal(&mut text, self.resource_id);
        text.append("' not exists in the network adapter");
        text
    }
}

/// Keeps the resources, each under an id of its own.
pub struct Controller {
    resources: HashMap<usize, Resource>,
    last_id: usize,
}

impl View for Controller {
    type V = Registry;

    closed spec fn view(&self) -> Registry {
        Registry { resources: self.resources@, next_id: self.last_id }
    }
}

impl Controller {
    fn new() -> (controller: Controller)
        ensures
            controller@ == Registry::empty(),
    {
        Controller { resources: HashMap::new(), last_id: 0 }
    }

    /// Returns whether there is an id left for another resource.
    pub fn has_free_id(&self) -> (free: bool)
        ensures
            free == (self@.next_id < usize::MAX),
    {
        self.last_id < usize::MAX
    }

    fn add_resource(&mut self, resource: Resource) -> (id: usize)
        requires
            old(self)@.next_id < usize::MAX,
        ensures
            id == old(self)@.next_id,
            final(self)@ == old(self)@.with(resource),
    {
        let id: usize = self.last_id;
        self.last_id = self.last_id + 1;
        self.resources.insert(id, resource);
        id
    }

    /// Adds a remote and returns its endpoint. The remote must be registered for readiness under
    /// the id of the endpoint.
    pub fn add_remote(&mut self, remote: Remote) -> (endpoint: Endpoint)
        requires
            old(self)@.next_id < usize::MAX,
        ensures
            endpoint == Endpoint::of(old(self)@.next_id, remote.peer()),
            final(self)@ == old(self)@.with(Resource::Remote(remote)),
            old(self)@.in_order() ==> final(self)@.in_order(),
    {
        let id: usize = self.add_resource(Resource::Remote(remote));
        Endpoint::new(id, remote.peer_addr())
    }

    /// Adds a listener and returns its id and its local address. The listener must be registered
    /// for readiness under that id.
    pub fn add_listener(&mut self, listener: Listener) -> (added: (usize, SocketAddr))
        requires
            old(self)@.next_id < usize::MAX,
        ensures
            added == (old(self)@.next_id, listener.local()),
            final(self)@ == old(self)@.with(Resource::Listener(listener)),
            old(self)@.in_order() ==> final(self)@.in_order(),
    {
        let id: usize = self.add_resource(Resource::Listener(listener));
        (id, listener.local_addr())
    }

    /// Removes a resource, if there is one with the given id. A resource that was removed must be
    /// deregistered.
    pub fn remove_resource(&mut self, resource_id: usize) -> (removed: Option<()>)
        ensures
            removed is Some <==> old(self)@.resources.contains_key(resource_id),
            final(self)@ == old(self)@.without(resource_id),
            old(self)@.in_order() ==> final(self)@.in_order(),
    {
        if let Some(_) = self.resources.remove(&resource_id) {
            Some(())
        } else {
            None
        }
    }

    /// Returns the resource with the given id, if there is one.
    pub fn resource(&self, resource_id: usize) -> (resource: Option<Resource>)
        ensures
            resource == if self@.resources.contains_key(resource_id) {
                Some(self@.resources[resource_id])
            } else {
                None
            },
    {
        match self.resources.get(&resource_id) {
            Some(resource) => Some(*resource),
            None => None,
        }
    }

    /// Returns the local address of the resource with the given id, if there is one.
    pub fn local_address(&mut self, resource_id: usize) -> (local: Option<SocketAddr>)
        ensures
            local == if old(self)@.resources.contains_key(resource_id) {
                Some(old(self)@.resources[resource_id].local())
            } else {
                None
            },
            *final(self) == *old(self),
    {
        if let Some(resource) = self.resource(resource_id) {
            Some(resource.local_addr())
        } else {
            None
        }
    }

    /// Decides how to send `data` to `endpoint`. It fails if the resource of the endpoint is gone.
    pub fn send<'a>(&mut self, endpoint: Endpoint, data: &'a [u8]) -> (way: Result<
        Transmission<'a>,
        UnknownResource,
    >)
        requires
            !old(self)@.is_deaf(endpoint),
        ensures
            way == if old(self)@.resources.contains_key(endpoint.resource()) {
                Ok(
                    transmission(
                        old(self)@.resources[endpoint.resource()],
                        endpoint,
                        data,
                    ),
                )
            } else {
                Err(UnknownResource { resource_id: endpoint.resource() })
            },
            *final(self) == *old(self),
    {
        let resource_id: usize = endpoint.resource_id();
        if let Some(resource) = self.resource(resource_id) {
            match resource {
                Resource::Listener(_) => Ok(
                    Transmission::SendTo { resource_id, data, addr: endpoint.addr() },
                ),
                Resource::Remote(remote) => match remote {
                    Remote::Tcp(_, _) => Ok(Transmission::Write { resource_id, data }),
                    Remote::Udp(_, _) => Ok(Transmission::Send { resource_id, data }),
                },
            }
        } else {
            Err(UnknownResource { resource_id })
        }
    }
}

/// The call that finds out what a resource has to report.
#[derive(Clone, Copy, PartialEq, Eq, Debug, Structural)]
pub enum Call {
    /// Accept a connection.
    Accept,
    /// Receive a datagram from any remote.
    ReceiveFrom,
    /// Read from the stream.
    Read,
    /// Receive a datagram from the peer.
    Receive,
}

/// The call that suits a resource.
pub open spec fn call_for(resource: Resource) -> Call {
    match resource {
        Resource::Listener(Listener::Tcp(_)) => Call::Accept,
        Resource::Listener(Listener::Udp(_)) => Call::ReceiveFrom,
        Resource::Remote(Remote::Tcp(_, _)) => Call::Read,
        Resource::Remote(Remote::Udp(_, _)) => Call::Receive,
    }
}

/// What came of such a call.
#[derive(Clone, Copy, PartialEq, Eq, Debug, Structural)]
pub enum Reply {
    /// A connection was accepted, from the first address to the second.
    Accepted(SocketAddr, SocketAddr),
    /// A datagram of some length came from an address.
    ReceivedFrom(usize, SocketAddr),
    /// So many bytes were read or received.
    Received(usize),
    /// The call failed.
    Failed(ErrorKind),
}

/// Whether a call can end like this.
pub open spec fn answers(call: Call, reply: Reply) -> bool {
    match reply {
        Reply::Accepted(_, _) => call == Call::Accept,
        Reply::ReceivedFrom(_, _) => call == Call::ReceiveFrom,
        Reply::Received(_) => call == Call::Read || call == Call::Receive,
        Reply::Failed(_) => true,
    }
}

/// What to do about a reply.
#[derive(Debug)]
pub enum Step<'b> {
    /// Report the event, then make the call again.
    Report(Endpoint, Event<'b>),
    /// Report the event, and be done with the resource. It has been removed.
    ReportLast(Endpoint, Event<'b>),
    /// Make the call again.
    Repeat,
    /// Be done with the resource for now.
    Done,
    /// Give up: the failure is not one to live with.
    Fail,
}

/// Whether a failure of a call is no more than a reason to make it again.
pub open spec fn repeats(call: Call, kind: ErrorKind) -> bool {
    match kind {
        ErrorKind::Interrupted => call == Call::Accept || call == Call::Read,
        ErrorKind::ConnectionRefused => call == Call::Receive,
        _ => false,
    }
}

/// What to do about a reply that the resource `id` gave. Connections get the id `next_id`, data
/// is the whole of `buffer`, and a stream without more data is at its end.
pub open spec fn reaction<'b>(
    id: usize,
    resource: Resource,
    next_id: usize,
    reply: Reply,
    buffer: &'b [u8],
) -> Step<'b> {
    match reply {
        Reply::Accepted(_, peer) => Step::Report(Endpoint::of(next_id, peer), Event::Connection),
        Reply::ReceivedFrom(_, addr) => Step::Report(Endpoint::of(id, addr), Event::Data(buffer)),
        Reply::Received(len) => {
            let peer = resource->Remote_0.peer();
            if len == 0 && call_for(resource) == Call::Read {
                Step::ReportLast(Endpoint::of(id, peer), Event::Disconnection)
            } else {
                Step::Report(Endpoint::of(id, peer), Event::Data(buffer))
            }
        },
        Reply::Failed(ErrorKind::WouldBlock) => Step::Done,
        Reply::Failed(kind) => if repeats(call_for(resource), kind) {
            Step::Repeat
        } else {
            Step::Fail
        },
    }
}

/// The registry after that reply: an accepted connection is added, and a stream that is at its
/// end is removed.
pub open spec fn registry_after(before: Registry, id: usize, reply: Reply) -> Registry {
    match reply {
        Reply::Accepted(local, peer) => before.with(Resource::Remote(Remote::Tcp(local, peer))),
        Reply::Received(0) if call_for(before.resources[id]) == Call::Read => before.without(id),
        _ => before,
    }
}

/// What came of waiting for resources that have something to report.
#[derive(Debug)]
pub enum Polled {
    /// The resources with these ids have something to report.
    Ready(Vec<usize>),
    /// The wait failed.
    Failed(ErrorKind),
}

/// What to do about it.
#[derive(Clone, Copy, PartialEq, Eq, Debug, Structural)]
pub enum PollStep {
    /// Process the events of the resources that are ready.
    Process,
    /// Wait again.
    Retry,
    /// Give up: the failure is not one to live with.
    Fail,
}

/// Works through the resources that have something to report, one after the other.
pub struct Receiver {
    ready: Vec<usize>,
    position: usize,
}

impl View for Receiver {
    type V = Seq<usize>;

    /// The ids of the resources that are still to be worked through.
    closed spec fn view(&self) -> Seq<usize> {
        self.ready@.skip(self.position as int)
    }
}

impl Receiver {
    /// The position lies within the list, or at its end.
    #[verifier::type_invariant]
    spec fn within(self) -> bool {
        self.position <= self.ready@.len()
    }

    fn new() -> (receiver: Receiver)
        ensures
            receiver@ == Seq::<usize>::empty(),
    {
        Receiver { ready: Vec::new(), position: 0 }
    }

    /// Takes over what came of waiting. The resources that are ready take the place of those that
    /// were still to be worked through.
    pub fn receive(&mut self, polled: Polled) -> (step: PollStep)
        ensures
            step == match polled {
                Polled::Ready(_) => PollStep::Process,
                Polled::Failed(ErrorKind::Interrupted) => PollStep::Retry,
                Polled::Failed(_) => PollStep::Fail,
            },
            final(self)@ == match polled {
                Polled::Ready(ids) => ids@,
                Polled::Failed(_) => old(self)@,
            },
    {
        match polled {
            Polled::Ready(ids) => {
                *self = Receiver { ready: ids, position: 0 };
                assert(self@ =~= ids@);
                PollStep::Process
            },
            Polled::Failed(kind) => match kind {
                ErrorKind::Interrupted => PollStep::Retry,
                _ => PollStep::Fail,
            },
        }
    }

    /// Returns the resource whose turn it is, if any is left.
    pub fn current(&self) -> (id: Option<usize>)
        ensures
            id == if self@.len() == 0 {
                None
            } else {
                Some(self@[0])
            },
    {
        proof {
            use_type_invariant(self);
        }
        if self.position < self.ready.len() {
            Some(self.ready[self.position])
        } else {
            None
        }
    }

    /// Returns the call that finds out what the resource has to report whose turn it is.
    pub fn next_call(&self, controller: &Controller) -> (call: Call)
        requires
            self@.len() > 0,
            controller@.resources.contains_key(self@[0]),
        ensures
            call == call_for(controller@.resources[self@[0]]),
    {
        proof {
            use_type_invariant(self);
        }
        let id: usize = self.ready[self.position];
        match controller.resource(id).unwrap() {
            Resource::Listener(listener) => match listener {
                Listener::Tcp(_) => Call::Accept,
                Listener::Udp(_) => Call::ReceiveFrom,
            },
            Resource::Remote(remote) => match remote {
                Remote::Tcp(_, _) => Call::Read,
                Remote::Udp(_, _) => Call::Receive,
            },
        }
    }

    /// Goes on to the next resource.
    fn advance(&mut self)
        requires
            old(self)@.len() > 0,
        ensures
            final(self)@ == old(self)@.drop_first(),
    {
        proof {
            use_type_invariant(&*self);
        }
        assert(self.position < self.ready.len());
        self.position = self.position + 1;
        assert(self@ =~= old(self)@.drop_first());
    }

    /// Decides what to do about the reply of the resource whose turn it is, where `buffer` is what
    /// the call read into. An accepted connection is added to the controller, and a stream that is
    /// at its end is removed from it. The turn passes on once the resource is done.
    pub fn process_event<'b>(
        &mut self,
        controller: &mut Controller,
        reply: Reply,
        buffer: &'b [u8],
    ) -> (step: Step<'b>)
        requires
            old(self)@.len() > 0,
            old(controller)@.resources.contains_key(old(self)@[0]),
            answers(call_for(old(controller)@.resources[old(self)@[0]]), reply),
            reply is Accepted ==> old(controller)@.next_id < usize::MAX,
        ensures
            step == reaction(
                old(self)@[0],
                old(controller)@.resources[old(self)@[0]],
                old(controller)@.next_id,
                reply,
                buffer,
            ),
            final(controller)@ == registry_after(old(controller)@, old(self)@[0], reply),
            old(controller)@.in_order() ==> final(controller)@.in_order(),
            final(self)@ == if step is Done || step is ReportLast {
                old(self)@.drop_first()
            } else {
                old(self)@
            },
    {
        proof {
            use_type_invariant(&*self);
        }
        let id: usize = self.ready[self.position];
        let resource = controller.resource(id).unwrap();
        match resource {
            Resource::Listener(Listener::Tcp(_)) => match reply {
                Reply::Accepted(local, peer) => {
                    let endpoint = controller.add_remote(Remote::Tcp(local, peer));
                    Step::Report(endpoint, Event::Connection)
                },
                Reply::Failed(ErrorKind::WouldBlock) => {
                    self.advance();
                    Step::Done
                },
                Reply::Failed(ErrorKind::Interrupted) => Step::Repeat,
                _ => Step::Fail,
            },
            Resource::Listener(Listener::Udp(_)) => match reply {
                Reply::ReceivedFrom(_, addr) => Step::Report(
                    Endpoint::new(id, addr),
                    Event::Data(buffer),
                ),
                Reply::Failed(ErrorKind::WouldBlock) => {
                    self.advance();
                    Step::Done
                },
                _ => Step::Fail,
            },
            Resource::Remote(Remote::Tcp(_, peer)) => match reply {
                Reply::Received(0) => {
                    controller.remove_resource(id);
                    self.advance();
                    Step::ReportLast(Endpoint::new(id, peer), Event::Disconnection)
                },
                Reply::Received(_) => Step::Report(Endpoint::new(id, peer), Event::Data(buffer)),
                Reply::Failed(ErrorKind::WouldBlock) => {
                    self.advance();
                    Step::Done
                },
                Reply::Failed(ErrorKind::Interrupted) => Step::Repeat,
                _ => Step::Fail,
            },
            Resource::Remote(Remote::Udp(_, peer)) => match reply {
                Reply::Received(_) => Step::Report(Endpoint::new(id, peer), Event::Data(buffer)),
                Reply::Failed(ErrorKind::WouldBlock) => {
                    self.advance();
                    Step::Done
                },
                Reply::Failed(ErrorKind::ConnectionRefused) => Step::Repeat,
                _ => Step::Fail,
            },
        }
    }
}

} // verus!
