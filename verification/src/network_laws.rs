//! What holds of the network resources as a whole.

use crate::address::{SocketAddr, SocketAddrV4};
use crate::network_adapter::{
    adapter, Call, Controller, Endpoint, Event, Listener, Membership, MulticastPlan, PollStep,
    Polled, Receiver, Registry, Remote, Reply, Resource, Step, Transmission, UnknownResource,
};
use crate::status::ErrorKind;
use vstd::prelude::*;

verus! {

/// Whether one operation of a controller, an addition or a removal, or none turns `before` into
/// `after`.
pub open spec fn follows(before: Registry, after: Registry) -> bool {
    ||| after == before
    ||| before.next_id < usize::MAX && exists|resource: Resource| after == #[trigger] before.with(
        resource,
    )
    ||| exists|id: usize| after == #[trigger] before.without(id)
}

/// Whether each registry of `history` comes from the one before it by one operation.
pub open spec fn is_history(history: Seq<Registry>) -> bool {
    forall|i: int|
        0 <= i < history.len() - 1 ==> follows(#[trigger] history[i], history[i + 1])
}

/// Whether `endpoint` was given out: its id is one that was assigned, and not to a TCP listener.
pub open spec fn was_given_out(registry: Registry, endpoint: Endpoint) -> bool {
    &&& endpoint.resource() < registry.next_id
    &&& !registry.is_deaf(endpoint)
}

/// The id that comes next is in use for no resource.
pub proof fn law_next_id_is_free(registry: Registry)
    requires
        registry.in_order(),
    ensures
        !registry.resources.contains_key(registry.next_id),
{
}

/// Operations keep the ids in order.
pub proof fn law_ids_stay_in_order(before: Registry, after: Registry)
    requires
        before.in_order(),
        follows(before, after),
    ensures
        after.in_order(),
        before.next_id <= after.next_id,
{
}

/// A resource that was added is found under its id, and every other resource is where it was.
pub proof fn law_added_is_found(registry: Registry, resource: Resource, other: usize)
    requires
        registry.in_order(),
        registry.next_id < usize::MAX,
        other != registry.next_id,
    ensures
        registry.with(resource).resources.contains_key(registry.next_id),
        registry.with(resource).resources[registry.next_id] == resource,
        registry.with(resource).resources.contains_key(other) == registry.resources.contains_key(
            other,
        ),
        registry.resources.contains_key(other) ==> registry.with(resource).resources[other]
            == registry.resources[other],
{
}

/// To remove the resource that was just added undoes the addition, but for the id, which is not
/// given out again.
pub proof fn law_removal_undoes_addition(registry: Registry, resource: Resource)
    requires
        registry.in_order(),
        registry.next_id < usize::MAX,
    ensures
        registry.with(resource).without(registry.next_id).resources == registry.resources,
        registry.with(resource).without(registry.next_id).next_id == registry.next_id + 1,
{
    law_next_id_is_free(registry);
    assert(registry.with(resource).without(registry.next_id).resources =~= registry.resources);
}

/// An id whose resource is gone is never in use again, so what is sent to its endpoints is refused
/// for good.
pub proof fn law_ids_do_not_return(history: Seq<Registry>, id: usize)
    requires
        0 < history.len(),
        is_history(history),
        history[0].in_order(),
        id < history[0].next_id,
        !history[0].resources.contains_key(id),
    ensures
        !history.last().resources.contains_key(id),
        history.last().in_order(),
        history[0].next_id <= history.last().next_id,
    decreases history.len(),
{
    if 1 < history.len() {
        let earlier = history.drop_last();
        assert forall|i: int| 0 <= i < earlier.len() - 1 implies follows(
            #[trigger] earlier[i],
            earlier[i + 1],
        ) by {
            assert(follows(history[i], history[i + 1]));
        }
        law_ids_do_not_return(earlier, id);
        assert(earlier.last() == history[history.len() - 2]);
        assert(follows(history[history.len() - 2], history[history.len() - 2 + 1]));
    }
}

/// Whatever is added or removed, an endpoint that was given out never comes to belong to a TCP
/// listener, so it can always be sent to or is refused as unknown.
pub proof fn law_endpoints_stay_sendable(history: Seq<Registry>, endpoint: Endpoint)
    requires
        0 < history.len(),
        is_history(history),
        was_given_out(history[0], endpoint),
    ensures
        was_given_out(history.last(), endpoint),
    decreases history.len(),
{
    if 1 < history.len() {
        let earlier = history.drop_last();
        assert forall|i: int| 0 <= i < earlier.len() - 1 implies follows(
            #[trigger] earlier[i],
            earlier[i + 1],
        ) by {
            assert(follows(history[i], history[i + 1]));
        }
        law_endpoints_stay_sendable(earlier, endpoint);
        assert(earlier.last() == history[history.len() - 2]);
        assert(follows(history[history.len() - 2], history[history.len() - 2 + 1]));
    }
}

/// The endpoint of a remote that was added was given out, and data for it goes through that
/// remote.
pub proof fn law_added_remote_is_sendable(registry: Registry, remote: Remote, data: &[u8])
    requires
        registry.next_id < usize::MAX,
    ensures
        ({
            let endpoint = Endpoint::of(registry.next_id, remote.peer());
            let after = registry.with(Resource::Remote(remote));
            let way = crate::network_adapter::transmission(
                after.resources[endpoint.resource()],
                endpoint,
                data,
            );
            &&& was_given_out(after, endpoint)
            &&& after.resources.contains_key(endpoint.resource())
            &&& way == match remote {
                Remote::Tcp(_, _) => Transmission::Write { resource_id: registry.next_id, data },
                Remote::Udp(_, _) => Transmission::Send { resource_id: registry.next_id, data },
            }
        }),
{
    crate::network_adapter::lemma_endpoint(registry.next_id, remote.peer());
}

/// Every endpoint that is reported was given out.
pub proof fn law_reported_endpoints_are_given_out(
    registry: Registry,
    id: usize,
    reply: Reply,
    buffer: &[u8],
    endpoint: Endpoint,
    event: Event,
)
    requires
        registry.in_order(),
        registry.resources.contains_key(id),
        crate::network_adapter::answers(
            crate::network_adapter::call_for(registry.resources[id]),
            reply,
        ),
        reply is Accepted ==> registry.next_id < usize::MAX,
        ({
            let step = crate::network_adapter::reaction(
                id,
                registry.resources[id],
                registry.next_id,
                reply,
                buffer,
            );
            step == Step::Report(endpoint, event) || step == Step::ReportLast(endpoint, event)
        }),
    ensures
        was_given_out(crate::network_adapter::registry_after(registry, id, reply), endpoint),
        follows(registry, crate::network_adapter::registry_after(registry, id, reply)),
{
    match reply {
        Reply::Accepted(_, peer) => {
            crate::network_adapter::lemma_endpoint(registry.next_id, peer);
        },
        Reply::ReceivedFrom(_, addr) => {
            crate::network_adapter::lemma_endpoint(id, addr);
        },
        _ => {
            crate::network_adapter::lemma_endpoint(id, registry.resources[id]->Remote_0.peer());
        },
    }
}

/// A reported connection has an endpoint of its own, which no endpoint before it shared a resource
/// with, and at which the accepted remote is found.
pub proof fn law_connection_is_new(
    registry: Registry,
    id: usize,
    local: SocketAddr,
    peer: SocketAddr,
    buffer: &[u8],
)
    requires
        registry.in_order(),
        registry.next_id < usize::MAX,
        registry.resources.contains_key(id),
        registry.resources[id] is Listener,
        registry.resources[id]->Listener_0 is Tcp,
    ensures
        ({
            let reply = Reply::Accepted(local, peer);
            let endpoint = Endpoint::of(registry.next_id, peer);
            let after = crate::network_adapter::registry_after(registry, id, reply);
            &&& crate::network_adapter::reaction(
                id,
                registry.resources[id],
                registry.next_id,
                reply,
                buffer,
            ) == Step::Report(endpoint, Event::Connection)
            &&& !registry.resources.contains_key(endpoint.resource())
            &&& after.resources.contains_key(endpoint.resource())
            &&& after.resources[endpoint.resource()] == Resource::Remote(Remote::Tcp(local, peer))
            &&& after.resources[id] == registry.resources[id]
        }),
{
    crate::network_adapter::lemma_endpoint(registry.next_id, peer);
}

/// When a disconnection is reported, the resource of its endpoint is gone, and it is the last that
/// is reported of it.
pub proof fn law_disconnection_is_last(
    registry: Registry,
    id: usize,
    reply: Reply,
    buffer: &[u8],
    endpoint: Endpoint,
)
    requires
        registry.resources.contains_key(id),
        crate::network_adapter::answers(
            crate::network_adapter::call_for(registry.resources[id]),
            reply,
        ),
        ({
            let step = crate::network_adapter::reaction(
                id,
                registry.resources[id],
                registry.next_id,
                reply,
                buffer,
            );
            step == Step::Report(endpoint, Event::Disconnection) || step == Step::ReportLast(
                endpoint,
                Event::Disconnection,
            )
        }),
    ensures
        reply == Reply::Received(0),
        registry.resources[id] is Remote,
        registry.resources[id]->Remote_0 is Tcp,
        endpoint == Endpoint::of(id, registry.resources[id]->Remote_0.peer()),
        !crate::network_adapter::registry_after(registry, id, reply).resources.contains_key(
            endpoint.resource(),
        ),
        crate::network_adapter::reaction(
            id,
            registry.resources[id],
            registry.next_id,
            reply,
            buffer,
        ) is ReportLast,
{
    crate::network_adapter::lemma_endpoint(id, registry.resources[id]->Remote_0.peer());
}

/// A call that would have to wait ends the turn of every resource, reports nothing and changes
/// nothing.
pub proof fn law_waiting_ends_turn(registry: Registry, id: usize, buffer: &[u8])
    ensures
        crate::network_adapter::reaction(
            id,
            registry.resources[id],
            registry.next_id,
            Reply::Failed(ErrorKind::WouldBlock),
            buffer,
        ) is Done,
        crate::network_adapter::registry_after(
            registry,
            id,
            Reply::Failed(ErrorKind::WouldBlock),
        ) == registry,
{
}

/// The resources that are still to be worked through after `steps`, when `ready` were ready: the
/// turn passes on with each step that is done with a resource.
pub open spec fn turns_left(ready: Seq<usize>, steps: Seq<Step>) -> Seq<usize>
    decreases steps.len(),
{
    if steps.len() == 0 {
        ready
    } else {
        let before = turns_left(ready, steps.drop_last());
        if ends_turn(steps.last()) {
            before.drop_first()
        } else {
            before
        }
    }
}

/// Whether a step is done with its resource.
pub open spec fn ends_turn(step: Step) -> bool {
    step is Done || step is ReportLast
}

/// How many of `steps` are done with their resource.
pub open spec fn turns_ended(steps: Seq<Step>) -> nat
    decreases steps.len(),
{
    if steps.len() == 0 {
        0
    } else if ends_turn(steps.last()) {
        turns_ended(steps.drop_last()) + 1
    } else {
        turns_ended(steps.drop_last())
    }
}

/// The resources that are ready get their turns in the order in which they were named, each until
/// it is done, and none is passed over.
pub proof fn law_turns_in_order(ready: Seq<usize>, steps: Seq<Step>)
    requires
        turns_ended(steps) <= ready.len(),
    ensures
        turns_left(ready, steps) == ready.skip(turns_ended(steps) as int),
    decreases steps.len(),
{
    if 0 < steps.len() {
        law_turns_in_order(ready, steps.drop_last());
    }
    assert(turns_left(ready, steps) =~= ready.skip(turns_ended(steps) as int));
}

/// The resources of a controller, and those that are still to be worked through.
pub struct Standing {
    pub registry: Registry,
    pub ready: Seq<usize>,
}

/// One reply of the resource whose turn it is, what the call read into, and what is done about it.
pub struct Exchange<'b> {
    pub reply: Reply,
    pub buffer: &'b [u8],
    pub step: Step<'b>,
}

/// Whether the exchange turns the one standing into the other: the reply is one that the resource
/// can give, and is processed.
pub open spec fn exchanged(before: Standing, exchange: Exchange, after: Standing) -> bool {
    let id = before.ready[0];
    let resource = before.registry.resources[id];
    &&& 0 < before.ready.len()
    &&& before.registry.resources.contains_key(id)
    &&& crate::network_adapter::answers(
        crate::network_adapter::call_for(resource),
        exchange.reply,
    )
    &&& exchange.reply is Accepted ==> before.registry.next_id < usize::MAX
    &&& exchange.step == crate::network_adapter::reaction(
        id,
        resource,
        before.registry.next_id,
        exchange.reply,
        exchange.buffer,
    )
    &&& after.registry == crate::network_adapter::registry_after(
        before.registry,
        id,
        exchange.reply,
    )
    &&& after.ready == if ends_turn(exchange.step) {
        before.ready.drop_first()
    } else {
        before.ready
    }
}

/// Whether the exchanges follow one another, with the standing before the first and after each of
/// them.
pub open spec fn is_run(standings: Seq<Standing>, exchanges: Seq<Exchange>) -> bool {
    &&& standings.len() == exchanges.len() + 1
    &&& forall|i: int|
        0 <= i < exchanges.len() ==> exchanged(
            standings[i],
            #[trigger] exchanges[i],
            standings[i + 1],
        )
}

/// The ids of the endpoints whose connection is reported, in the order of the reports.
pub open spec fn connected(exchanges: Seq<Exchange>) -> Seq<usize>
    decreases exchanges.len(),
{
    if exchanges.len() == 0 {
        Seq::empty()
    } else {
        let earlier = connected(exchanges.drop_last());
        match exchanges.last().step {
            Step::Report(endpoint, Event::Connection) => earlier.push(endpoint.resource()),
            Step::ReportLast(endpoint, Event::Connection) => earlier.push(endpoint.resource()),
            _ => earlier,
        }
    }
}

/// The ids of the endpoints whose disconnection is reported, in the order of the reports.
pub open spec fn disconnected(exchanges: Seq<Exchange>) -> Seq<usize>
    decreases exchanges.len(),
{
    if exchanges.len() == 0 {
        Seq::empty()
    } else {
        let earlier = disconnected(exchanges.drop_last());
        match exchanges.last().step {
            Step::Report(endpoint, Event::Disconnection) => earlier.push(endpoint.resource()),
            Step::ReportLast(endpoint, Event::Disconnection) => earlier.push(endpoint.resource()),
            _ => earlier,
        }
    }
}

/// What one exchange does to the ids: a reported connection takes the next, a reported
/// disconnection gives up that of the resource whose turn it is, and nothing else changes.
proof fn lemma_exchange(before: Standing, exchange: Exchange, after: Standing)
    requires
        exchanged(before, exchange, after),
    ensures
        match exchange.step {
            Step::Report(endpoint, Event::Connection) => endpoint.resource()
                == before.registry.next_id && before.registry.next_id < usize::MAX
                && exists|remote: Resource|
                after.registry == #[trigger] before.registry.with(remote),
            Step::ReportLast(endpoint, Event::Disconnection) => endpoint.resource()
                == before.ready[0] && after.registry == before.registry.without(before.ready[0]),
            Step::ReportLast(_, _) => false,
            Step::Report(_, event) => !(event is Disconnection) && after.registry
                == before.registry,
            _ => after.registry == before.registry,
        },
{
    let id = before.ready[0];
    let resource = before.registry.resources[id];
    match exchange.reply {
        Reply::Accepted(local, peer) => {
            crate::network_adapter::lemma_endpoint(before.registry.next_id, peer);
            let remote = Resource::Remote(Remote::Tcp(local, peer));
            assert(after.registry == before.registry.with(remote));
        },
        Reply::ReceivedFrom(_, addr) => {
            crate::network_adapter::lemma_endpoint(id, addr);
        },
        Reply::Received(_) => {
            crate::network_adapter::lemma_endpoint(id, resource->Remote_0.peer());
        },
        Reply::Failed(_) => {},
    }
}

/// After a run of replies the ids in use are those from before, with those whose connection was
/// reported and without those whose disconnection was reported. Each is reported once, a connection
/// has an id that was not in use, and every resource that is still there is what it was. A resource
/// that had no turn is still there.
pub proof fn law_ids_after_a_run(standings: Seq<Standing>, exchanges: Seq<Exchange>)
    requires
        is_run(standings, exchanges),
        standings[0].registry.in_order(),
    ensures
        ({
            let first = standings[0].registry;
            let last = standings.last().registry;
            let (came, went) = (connected(exchanges), disconnected(exchanges));
            &&& last.in_order()
            &&& forall|id: usize| #[trigger]
                last.resources.contains_key(id) <==> (first.resources.contains_key(id)
                    || came.contains(id)) && !went.contains(id)
            &&& came.no_duplicates()
            &&& went.no_duplicates()
            &&& forall|i: int|
                0 <= i < came.len() ==> first.next_id <= #[trigger] came[i] < last.next_id
            &&& forall|i: int| 0 <= i < went.len() ==> #[trigger] went[i] < last.next_id
            &&& first.next_id <= last.next_id
            &&& forall|id: usize| #[trigger]
                first.resources.contains_key(id) && last.resources.contains_key(id)
                    ==> last.resources[id] == first.resources[id]
            &&& forall|id: usize| #[trigger]
                first.resources.contains_key(id) && !standings[0].ready.contains(id)
                    ==> last.resources.contains_key(id)
            &&& forall|id: usize| #[trigger]
                standings.last().ready.contains(id) ==> standings[0].ready.contains(id)
        }),
    decreases exchanges.len(),
{
    if 0 < exchanges.len() {
        let n = exchanges.len() - 1;
        let (less, fewer) = (standings.drop_last(), exchanges.drop_last());
        assert forall|i: int| 0 <= i < fewer.len() implies exchanged(
            less[i],
            #[trigger] fewer[i],
            less[i + 1],
        ) by {
            assert(fewer[i] == exchanges[i]);
        }
        law_ids_after_a_run(less, fewer);
        let before = standings[n];
        let after = standings.last();
        assert(less.last() == before);
        assert(exchanges[n] == exchanges.last());
        assert(exchanged(before, exchanges[n], after));
        lemma_exchange(before, exchanges[n], after);
        let (came, went) = (connected(exchanges), disconnected(exchanges));
        let (came_before, went_before) = (connected(fewer), disconnected(fewer));
        assert(before.ready.contains(before.ready[0]));
        assert forall|id: usize| #[trigger] after.ready.contains(id) implies before.ready.contains(
            id,
        ) by {
            if ends_turn(exchanges[n].step) {
                let k = choose|k: int| 0 <= k < after.ready.len() && after.ready[k] == id;
                assert(before.ready[k + 1] == id);
            }
        }
        if came != came_before {
            let id = before.registry.next_id;
            assert(came == came_before.push(id));
            assert(came[came_before.len() as int] == id);
            assert forall|other: usize| came_before.contains(other) implies #[trigger] came
                .contains(other) by {
                let k = choose|k: int| 0 <= k < came_before.len() && came_before[k] == other;
                assert(came[k] == other);
            }
        }
        if went != went_before {
            let id = before.ready[0];
            assert(went == went_before.push(id));
            assert(went[went_before.len() as int] == id);
            assert(!went_before.contains(id));
            assert forall|other: usize| went_before.contains(other) implies #[trigger] went
                .contains(other) by {
                let k = choose|k: int| 0 <= k < went_before.len() && went_before[k] == other;
                assert(went[k] == other);
            }
        }
    }
}

/// Endpoints are told apart by the resource and the address that their getters return: two with the
/// same are one.
pub proof fn law_endpoint_is_its_parts(
    first: Endpoint,
    second: Endpoint,
    id: usize,
    addr: SocketAddr,
)
    requires
        call_ensures(Endpoint::resource_id, (&first,), id),
        call_ensures(Endpoint::addr, (&first,), addr),
        call_ensures(Endpoint::resource_id, (&second,), id),
        call_ensures(Endpoint::addr, (&second,), addr),
    ensures
        first == second,
        id == first.resource(),
        addr == first.remote(),
{
    crate::network_adapter::lemma_endpoint(id, addr);
    assert(Endpoint::of(first.resource(), first.remote()) == first);
    assert(Endpoint::of(second.resource(), second.remote()) == second);
}

/// The text of an endpoint is the id of its resource in brackets, in decimal digits, a hyphen and
/// the text of its address.
pub proof fn law_text_of_an_endpoint(endpoint: Endpoint, addr: &str, text: String) -> (digits: Seq<
    char,
>)
    requires
        call_ensures(Endpoint::describe, (&endpoint, addr), text),
    ensures
        text@ == seq!['['] + digits + seq![']', '-'] + addr@,
        crate::text::spelled(digits) == endpoint.resource(),
        0 < digits.len(),
        forall|i: int| 0 <= i < digits.len() ==> '0' <= #[trigger] digits[i] <= '9',
        digits[0] == '0' ==> digits.len() == 1,
{
    reveal_strlit("[");
    reveal_strlit("]-");
    let digits = crate::text::decimal(endpoint.resource() as nat);
    crate::text::lemma_decimal_reads_back(endpoint.resource() as nat);
    assert("["@ =~= seq!['[']);
    assert("]-"@ =~= seq![']', '-']);
    digits
}

/// The failure of a missing resource names its id, in decimal digits, and is of the kind "not
/// found".
pub proof fn law_text_of_a_missing_resource(
    error: UnknownResource,
    kind: ErrorKind,
    text: String,
) -> (digits: Seq<char>)
    requires
        call_ensures(UnknownResource::kind, (&error,), kind),
        call_ensures(UnknownResource::message, (&error,), text),
    ensures
        kind == ErrorKind::NotFound,
        text@ == "Resource id '"@ + digits + "' not exists in the network adapter"@,
        crate::text::spelled(digits) == error.resource_id,
        0 < digits.len(),
        forall|i: int| 0 <= i < digits.len() ==> '0' <= #[trigger] digits[i] <= '9',
        digits[0] == '0' ==> digits.len() == 1,
{
    crate::text::lemma_decimal_reads_back(error.resource_id as nat);
    crate::text::decimal(error.resource_id as nat)
}

/// The text of a resource tells what kind it is, whatever its addresses.
pub proof fn law_text_of_a_resource(
    resource: Resource,
    first: SocketAddr,
    second: SocketAddr,
    text: &'static str,
)
    requires
        call_ensures(Resource::describe, (&resource,), text),
    ensures
        resource == Resource::Listener(Listener::Tcp(first)) ==> text@ == "Listener::Tcp"@,
        resource == Resource::Listener(Listener::Udp(first)) ==> text@ == "Listener::Udp"@,
        resource == Resource::Remote(Remote::Tcp(first, second)) ==> text@ == "Remote::Tcp"@,
        resource == Resource::Remote(Remote::Udp(first, second)) ==> text@ == "Remote::Udp"@,
{
}

/// A listener has the local address that it was made with, and so has the resource that it is.
pub proof fn law_address_of_a_listener(
    local: SocketAddr,
    tcp: Listener,
    udp: Listener,
    tcp_local: SocketAddr,
    udp_local: SocketAddr,
    tcp_found: SocketAddr,
    udp_found: SocketAddr,
)
    requires
        call_ensures(Listener::new_tcp, (local,), tcp),
        call_ensures(Listener::new_udp, (local,), udp),
        call_ensures(Listener::local_addr, (&tcp,), tcp_local),
        call_ensures(Listener::local_addr, (&udp,), udp_local),
        call_ensures(Resource::local_addr, (&Resource::Listener(tcp),), tcp_found),
        call_ensures(Resource::local_addr, (&Resource::Listener(udp),), udp_found),
    ensures
        tcp == Listener::Tcp(local),
        udp == Listener::Udp(local),
        tcp_local == local,
        udp_local == local,
        tcp_found == local,
        udp_found == local,
{
}

/// A remote has the addresses that it was made with, and so has the resource that it is.
pub proof fn law_addresses_of_a_remote(
    local: SocketAddr,
    peer: SocketAddr,
    remote: Remote,
    remote_local: SocketAddr,
    remote_peer: SocketAddr,
    found: SocketAddr,
)
    requires
        call_ensures(Remote::new_tcp, (local, peer), remote) || call_ensures(
            Remote::new_udp,
            (local, peer),
            remote,
        ),
        call_ensures(Remote::local_addr, (&remote,), remote_local),
        call_ensures(Remote::peer_addr, (&remote,), remote_peer),
        call_ensures(Resource::local_addr, (&Resource::Remote(remote),), found),
    ensures
        remote_local == local,
        remote_peer == peer,
        found == local,
        call_ensures(Remote::new_tcp, (local, peer), remote) ==> remote == Remote::Tcp(local, peer),
        call_ensures(Remote::new_udp, (local, peer), remote) ==> remote == Remote::Udp(local, peer),
{
}

/// A multicast listener listens at the port of its group on every interface and joins the group
/// there. A listener at an address of a group leaves that group, as it was joined, and no other
/// listener leaves any.
pub proof fn law_multicast_groups_are_left_as_joined(
    addr: SocketAddrV4,
    plan: MulticastPlan,
    udp: Option<Membership>,
    tcp: Option<Membership>,
    multicast: bool,
)
    requires
        call_ensures(Listener::new_udp_multicast, (addr,), plan),
        call_ensures(
            Listener::multicast_to_leave,
            (&Listener::Udp(SocketAddr::V4(addr)),),
            udp,
        ),
        call_ensures(
            Listener::multicast_to_leave,
            (&Listener::Tcp(SocketAddr::V4(addr)),),
            tcp,
        ),
        call_ensures(SocketAddrV4::is_multicast, (&addr,), multicast),
    ensures
        plan.listen.ip == 0,
        plan.listen.port == addr.port,
        plan.join.group == addr.ip,
        plan.join.interface == 0,
        multicast ==> udp == Some(plan.join),
        !multicast ==> udp is None,
        tcp is None,
        multicast <==> 0xe000_0000 <= addr.ip <= 0xefff_ffff,
{
}

/// A listener at an IPv6 address leaves no group.
pub proof fn law_no_group_to_leave(
    listener: Listener,
    addr: crate::address::SocketAddrV6,
    membership: Option<Membership>,
)
    requires
        listener == Listener::Udp(SocketAddr::V6(addr)) || listener == Listener::Tcp(
            SocketAddr::V6(addr),
        ),
        call_ensures(Listener::multicast_to_leave, (&listener,), membership),
    ensures
        membership is None,
{
}

/// A fresh adapter has no resources, gives out 0 as its first id, and has nothing to work through.
pub proof fn law_fresh_adapter(pair: (Controller, Receiver), id: usize, current: Option<usize>)
    requires
        call_ensures(adapter, (), pair),
        call_ensures(Receiver::current, (&pair.1,), current),
    ensures
        !pair.0@.resources.contains_key(id),
        pair.0@.next_id == 0,
        current is None,
{
}

/// An addition needs an id, and there is one until the last has been given out.
pub proof fn law_additions_are_accepted(
    controller: &mut Controller,
    remote: Remote,
    listener: Listener,
    free: bool,
)
    requires
        call_ensures(Controller::has_free_id, (&*old(controller),), free),
    ensures
        free <==> old(controller)@.next_id != usize::MAX,
        free ==> call_requires(Controller::add_remote, (controller, remote)),
        free ==> call_requires(Controller::add_listener, (controller, listener)),
{
}

/// A remote that is added gets the next id. Its endpoint has that id and the address of its peer,
/// the remote is found under the id, every other id has what it had, and the id that comes next is
/// one more.
pub proof fn law_remote_is_added(
    controller: &mut Controller,
    local: SocketAddr,
    peer: SocketAddr,
    remote: Remote,
    endpoint: Endpoint,
    other: usize,
)
    requires
        remote == Remote::Tcp(local, peer) || remote == Remote::Udp(local, peer),
        old(controller)@.next_id < usize::MAX,
        call_ensures(Controller::add_remote, (controller, remote), endpoint),
    ensures
        endpoint.resource() == old(controller)@.next_id,
        endpoint.remote() == peer,
        final(controller)@.next_id == old(controller)@.next_id + 1,
        final(controller)@.resources.contains_key(endpoint.resource()),
        final(controller)@.resources[endpoint.resource()] == Resource::Remote(remote),
        other != endpoint.resource() ==> {
            &&& final(controller)@.resources.contains_key(other) <==> old(controller)@.resources.contains_key(other)
            &&& old(controller)@.resources.contains_key(other) ==> final(controller)@.resources[other] == old(controller)@.resources[other]
        },
{
    crate::network_adapter::lemma_endpoint(old(controller)@.next_id, peer);
}

/// A listener that is added gets the next id, which is returned with its local address. It is found
/// under the id, every other id has what it had, and the id that comes next is one more.
pub proof fn law_listener_is_added(
    controller: &mut Controller,
    local: SocketAddr,
    listener: Listener,
    added: (usize, SocketAddr),
    other: usize,
)
    requires
        listener == Listener::Tcp(local) || listener == Listener::Udp(local),
        old(controller)@.next_id < usize::MAX,
        call_ensures(Controller::add_listener, (controller, listener), added),
    ensures
        added.0 == old(controller)@.next_id,
        added.1 == local,
        final(controller)@.next_id == old(controller)@.next_id + 1,
        final(controller)@.resources.contains_key(added.0),
        final(controller)@.resources[added.0] == Resource::Listener(listener),
        other != added.0 ==> {
            &&& final(controller)@.resources.contains_key(other) <==> old(controller)@.resources.contains_key(other)
            &&& old(controller)@.resources.contains_key(other) ==> final(controller)@.resources[other] == old(controller)@.resources[other]
        },
{
}

/// After a removal there is no resource under the id, whatever kind it was and whatever was added
/// since. Every other id has what it had, and the id that comes next is the same. The removal tells
/// whether there was a resource, and can always be asked for.
pub proof fn law_removed_is_gone(
    controller: &mut Controller,
    id: usize,
    removed: Option<()>,
    other: usize,
)
    requires
        call_ensures(Controller::remove_resource, (controller, id), removed),
    ensures
        removed is Some <==> old(controller)@.resources.contains_key(id),
        !final(controller)@.resources.contains_key(id),
        other != id ==> {
            &&& final(controller)@.resources.contains_key(other) <==> old(controller)@.resources.contains_key(other)
            &&& old(controller)@.resources.contains_key(other) ==> final(controller)@.resources[other] == old(controller)@.resources[other]
        },
        final(controller)@.next_id == old(controller)@.next_id,
        call_requires(Controller::remove_resource, (controller, id)),
{
}

/// What a removal leaves of a registry: all but the resource under the id.
pub proof fn law_registry_without(registry: Registry, id: usize, other: usize)
    ensures
        !registry.without(id).resources.contains_key(id),
        other != id ==> {
            &&& registry.without(id).resources.contains_key(other)
                <==> registry.resources.contains_key(other)
            &&& registry.resources.contains_key(other) ==> registry.without(id).resources[other]
                == registry.resources[other]
        },
        registry.without(id).next_id == registry.next_id,
{
}

/// What a controller finds under an id is what it keeps there, and its local address is that of the
/// resource. To look changes nothing, and can always be asked for.
pub proof fn law_resource_is_found(
    controller: &mut Controller,
    id: usize,
    first: SocketAddr,
    second: SocketAddr,
    found: Option<Resource>,
    local: Option<SocketAddr>,
)
    requires
        call_ensures(Controller::resource, (&*old(controller), id), found),
        call_ensures(Controller::local_address, (controller, id), local),
    ensures
        found is Some <==> old(controller)@.resources.contains_key(id),
        local is Some <==> old(controller)@.resources.contains_key(id),
        found matches Some(resource) ==> resource == old(controller)@.resources[id],
        found == Some(Resource::Listener(Listener::Tcp(first))) ==> local == Some(first),
        found == Some(Resource::Listener(Listener::Udp(first))) ==> local == Some(first),
        found == Some(Resource::Remote(Remote::Tcp(first, second))) ==> local == Some(first),
        found == Some(Resource::Remote(Remote::Udp(first, second))) ==> local == Some(first),
        *final(controller) == *old(controller),
        call_requires(Controller::local_address, (controller, id)),
{
}

/// Data for an endpoint goes through its resource, whole and as it is: from a UDP listener to the
/// address of the endpoint, to a TCP remote as a write, to a UDP remote as a datagram. Data for a
/// resource that is gone is refused, with its id. Nothing changes.
pub proof fn law_data_goes_to_the_endpoint<'a>(
    controller: &mut Controller,
    endpoint: Endpoint,
    data: &'a [u8],
    first: SocketAddr,
    second: SocketAddr,
    way: Result<Transmission<'a>, UnknownResource>,
)
    requires
        call_ensures(Controller::send, (controller, endpoint, data), way),
    ensures
        ({
            let id = endpoint.resource();
            let known = old(controller)@.resources.contains_key(id);
            let resource = old(controller)@.resources[id];
            &&& known && resource == Resource::Listener(Listener::Udp(first)) ==> {
                &&& way matches Ok(Transmission::SendTo { resource_id, data: sent, addr })
                &&& resource_id == id && sent@ == data@ && addr == endpoint.remote()
            }
            &&& known && resource == Resource::Remote(Remote::Tcp(first, second)) ==> {
                &&& way matches Ok(Transmission::Write { resource_id, data: sent })
                &&& resource_id == id && sent@ == data@
            }
            &&& known && resource == Resource::Remote(Remote::Udp(first, second)) ==> {
                &&& way matches Ok(Transmission::Send { resource_id, data: sent })
                &&& resource_id == id && sent@ == data@
            }
            &&& !known <==> way is Err
            &&& !known ==> way->Err_0.resource_id == id
        }),
        *final(controller) == *old(controller),
{
}

/// Data can be sent to every endpoint that does not belong to a TCP listener.
pub proof fn law_sending_is_accepted(
    controller: &mut Controller,
    endpoint: Endpoint,
    data: &[u8],
)
    requires
        !({
            &&& old(controller)@.resources.contains_key(endpoint.resource())
            &&& old(controller)@.resources[endpoint.resource()] matches Resource::Listener(listener)
            &&& listener is Tcp
        }),
    ensures
        call_requires(Controller::send, (controller, endpoint, data)),
{
}

/// The outcome of a poll: the resources that are ready are worked through, from the first on. An
/// interrupted poll is made again, any other failure is not one to live with, and neither changes
/// what is still to be worked through.
pub proof fn law_poll(
    receiver: &mut Receiver,
    polled: Polled,
    step: PollStep,
    current: Option<usize>,
)
    requires
        call_ensures(Receiver::receive, (receiver, polled), step),
        call_ensures(Receiver::current, (&*final(receiver),), current),
    ensures
        polled matches Polled::Ready(ids) ==> {
            &&& step == PollStep::Process
            &&& final(receiver)@ == ids@
            &&& ids@.len() == 0 ==> current is None
            &&& ids@.len() > 0 ==> current == Some(ids@[0])
        },
        polled matches Polled::Failed(kind) ==> {
            &&& kind == ErrorKind::Interrupted ==> step == PollStep::Retry
            &&& kind != ErrorKind::Interrupted ==> step == PollStep::Fail
            &&& final(receiver)@ == old(receiver)@
        },
{
}

/// The resource whose turn it is is the first of those that are still to be worked through, and the
/// call is the one that suits its kind. The call can be asked for whenever that resource is known.
pub proof fn law_call_suits_the_resource(
    receiver: Receiver,
    controller: Controller,
    first: SocketAddr,
    second: SocketAddr,
    current: Option<usize>,
    call: Call,
)
    requires
        receiver@.len() > 0,
        controller@.resources.contains_key(receiver@[0]),
        call_ensures(Receiver::current, (&receiver,), current),
        call_ensures(Receiver::next_call, (&receiver, &controller), call),
    ensures
        current == Some(receiver@[0]),
        call_requires(Receiver::next_call, (&receiver, &controller)),
        ({
            let resource = controller@.resources[receiver@[0]];
            &&& resource == Resource::Listener(Listener::Tcp(first)) ==> call == Call::Accept
            &&& resource == Resource::Listener(Listener::Udp(first)) ==> call == Call::ReceiveFrom
            &&& resource == Resource::Remote(Remote::Tcp(first, second)) ==> call == Call::Read
            &&& resource == Resource::Remote(Remote::Udp(first, second)) ==> call == Call::Receive
        }),
{
}

/// Every connection that is accepted is reported, with an endpoint of the next id at the address of
/// the peer. The remote is found under that id, every other id has what it had, and the listener
/// goes on with its turn.
pub proof fn law_connections_are_reported<'b>(
    receiver: &mut Receiver,
    controller: &mut Controller,
    listener: SocketAddr,
    local: SocketAddr,
    peer: SocketAddr,
    buffer: &'b [u8],
    step: Step<'b>,
    other: usize,
)
    requires
        old(receiver)@.len() > 0,
        old(controller)@.resources.contains_key(old(receiver)@[0]),
        old(controller)@.resources[old(receiver)@[0]] == Resource::Listener(
            Listener::Tcp(listener),
        ),
        old(controller)@.next_id < usize::MAX,
        call_ensures(
            Receiver::process_event,
            (receiver, controller, Reply::Accepted(local, peer), buffer),
            step,
        ),
    ensures
        step matches Step::Report(endpoint, event) && event is Connection && endpoint.resource()
            == old(controller)@.next_id && endpoint.remote() == peer,
        final(controller)@.next_id == old(controller)@.next_id + 1,
        final(controller)@.resources.contains_key(old(controller)@.next_id),
        final(controller)@.resources[old(controller)@.next_id] == Resource::Remote(
            Remote::Tcp(local, peer),
        ),
        other != old(controller)@.next_id ==> {
            &&& final(controller)@.resources.contains_key(other) <==> old(controller)@.resources.contains_key(other)
            &&& old(controller)@.resources.contains_key(other) ==> final(controller)@.resources[other] == old(controller)@.resources[other]
        },
        final(receiver)@ == old(receiver)@,
        call_requires(
            Receiver::process_event,
            (receiver, controller, Reply::Accepted(local, peer), buffer),
        ),
{
    crate::network_adapter::lemma_endpoint(old(controller)@.next_id, peer);
}

/// Every datagram that a UDP listener receives is reported as data, with an endpoint of the
/// listener at the address of the sender. The resources stay as they are, and the listener goes on
/// with its turn.
pub proof fn law_datagrams_of_a_listener_are_reported<'b>(
    receiver: &mut Receiver,
    controller: &mut Controller,
    listener: SocketAddr,
    len: usize,
    addr: SocketAddr,
    buffer: &'b [u8],
    step: Step<'b>,
)
    requires
        old(receiver)@.len() > 0,
        old(controller)@.resources.contains_key(old(receiver)@[0]),
        old(controller)@.resources[old(receiver)@[0]] == Resource::Listener(
            Listener::Udp(listener),
        ),
        call_ensures(
            Receiver::process_event,
            (receiver, controller, Reply::ReceivedFrom(len, addr), buffer),
            step,
        ),
    ensures
        step matches Step::Report(endpoint, Event::Data(data)) && endpoint.resource() == old(receiver)@[0] && endpoint.remote() == addr && data@ == buffer@,
        final(controller)@ == old(controller)@,
        final(receiver)@ == old(receiver)@,
        call_requires(
            Receiver::process_event,
            (receiver, controller, Reply::ReceivedFrom(len, addr), buffer),
        ),
{
    crate::network_adapter::lemma_endpoint(old(receiver)@[0], addr);
}

/// Everything that is read from a TCP remote or received by a UDP remote is reported as data, with
/// the endpoint of the remote; only for a TCP remote are no bytes the end. The resources stay as
/// they are, and the remote goes on with its turn.
pub proof fn law_data_of_a_remote_is_reported<'b>(
    receiver: &mut Receiver,
    controller: &mut Controller,
    local: SocketAddr,
    peer: SocketAddr,
    len: usize,
    buffer: &'b [u8],
    step: Step<'b>,
)
    requires
        old(receiver)@.len() > 0,
        old(controller)@.resources.contains_key(old(receiver)@[0]),
        ({
            let resource = old(controller)@.resources[old(receiver)@[0]];
            ||| resource == Resource::Remote(Remote::Udp(local, peer))
            ||| resource == Resource::Remote(Remote::Tcp(local, peer)) && len > 0
        }),
        call_ensures(
            Receiver::process_event,
            (receiver, controller, Reply::Received(len), buffer),
            step,
        ),
    ensures
        step matches Step::Report(endpoint, Event::Data(data)) && endpoint.resource() == old(receiver)@[0] && endpoint.remote() == peer && data@ == buffer@,
        final(controller)@ == old(controller)@,
        final(receiver)@ == old(receiver)@,
        call_requires(
            Receiver::process_event,
            (receiver, controller, Reply::Received(len), buffer),
        ),
{
    crate::network_adapter::lemma_endpoint(old(receiver)@[0], peer);
}

/// A TCP remote from which no bytes are read is at its end: its disconnection is reported, with its
/// endpoint, it is gone from the resources, of which all others stay as they are, and its turn is
/// over.
pub proof fn law_disconnections_are_reported<'b>(
    receiver: &mut Receiver,
    controller: &mut Controller,
    local: SocketAddr,
    peer: SocketAddr,
    buffer: &'b [u8],
    step: Step<'b>,
    other: usize,
)
    requires
        old(receiver)@.len() > 0,
        old(controller)@.resources.contains_key(old(receiver)@[0]),
        old(controller)@.resources[old(receiver)@[0]] == Resource::Remote(Remote::Tcp(local, peer)),
        call_ensures(
            Receiver::process_event,
            (receiver, controller, Reply::Received(0), buffer),
            step,
        ),
    ensures
        step matches Step::ReportLast(endpoint, event) && event is Disconnection
            && endpoint.resource() == old(receiver)@[0] && endpoint.remote() == peer,
        !final(controller)@.resources.contains_key(old(receiver)@[0]),
        other != old(receiver)@[0] ==> {
            &&& final(controller)@.resources.contains_key(other) <==> old(controller)@.resources.contains_key(other)
            &&& old(controller)@.resources.contains_key(other) ==> final(controller)@.resources[other] == old(controller)@.resources[other]
        },
        final(controller)@.next_id == old(controller)@.next_id,
        old(receiver)@ == seq![old(receiver)@[0]] + final(receiver)@,
        call_requires(
            Receiver::process_event,
            (receiver, controller, Reply::Received(0), buffer),
        ),
{
    crate::network_adapter::lemma_endpoint(old(receiver)@[0], peer);
    assert(old(receiver)@ =~= seq![old(receiver)@[0]] + old(receiver)@.drop_first());
}

/// A call that fails reports nothing and changes no resource. The turn is over where the call would
/// have to wait, and only there. The call is made again where it was interrupted, for what is
/// accepted or read, and where the connection was refused, for what a UDP remote receives. Any other
/// failure is not one to live with.
pub proof fn law_failures<'b>(
    receiver: &mut Receiver,
    controller: &mut Controller,
    first: SocketAddr,
    second: SocketAddr,
    kind: ErrorKind,
    buffer: &'b [u8],
    step: Step<'b>,
)
    requires
        old(receiver)@.len() > 0,
        old(controller)@.resources.contains_key(old(receiver)@[0]),
        call_ensures(
            Receiver::process_event,
            (receiver, controller, Reply::Failed(kind), buffer),
            step,
        ),
    ensures
        final(controller)@ == old(controller)@,
        kind == ErrorKind::WouldBlock <==> step is Done,
        kind == ErrorKind::WouldBlock ==> old(receiver)@ == seq![old(receiver)@[0]] + final(receiver)@,
        kind != ErrorKind::WouldBlock ==> final(receiver)@ == old(receiver)@ && (step is Repeat
            || step is Fail),
        ({
            let resource = old(controller)@.resources[old(receiver)@[0]];
            &&& resource == Resource::Listener(Listener::Tcp(first)) ==> (step is Repeat <==> kind
                == ErrorKind::Interrupted)
            &&& resource == Resource::Listener(Listener::Udp(first)) ==> !(step is Repeat)
            &&& resource == Resource::Remote(Remote::Tcp(first, second)) ==> (step is Repeat
                <==> kind == ErrorKind::Interrupted)
            &&& resource == Resource::Remote(Remote::Udp(first, second)) ==> (step is Repeat
                <==> kind == ErrorKind::ConnectionRefused)
        }),
        call_requires(
            Receiver::process_event,
            (receiver, controller, Reply::Failed(kind), buffer),
        ),
{
    assert(old(receiver)@ =~= seq![old(receiver)@[0]] + old(receiver)@.drop_first());
}

/// An answer to the sender of a datagram goes back to where the datagram came from: what is sent to
/// the endpoint that a UDP listener reports leaves that listener for the address of the sender.
pub proof fn law_answers_go_back<'b, 'a>(
    receiver: &mut Receiver,
    controller: &mut Controller,
    later: &mut Controller,
    listener: SocketAddr,
    len: usize,
    addr: SocketAddr,
    buffer: &'b [u8],
    step: Step<'b>,
    data: &'a [u8],
    way: Result<Transmission<'a>, UnknownResource>,
)
    requires
        old(receiver)@.len() > 0,
        old(controller)@.resources.contains_key(old(receiver)@[0]),
        old(controller)@.resources[old(receiver)@[0]] == Resource::Listener(
            Listener::Udp(listener),
        ),
        call_ensures(
            Receiver::process_event,
            (receiver, controller, Reply::ReceivedFrom(len, addr), buffer),
            step,
        ),
        *old(later) == *final(controller),
        step is Report,
        call_ensures(Controller::send, (later, step->Report_0, data), way),
    ensures
        way matches Ok(Transmission::SendTo { resource_id, data: sent, addr: target })
            && resource_id == old(receiver)@[0] && sent@ == data@ && target == addr,
{
    crate::network_adapter::lemma_endpoint(old(receiver)@[0], addr);
}

} // verus!
