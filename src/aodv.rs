//! The AODV routing controller: route discovery, forwarding, pending messages,
//! HELLO and neighbour liveness, as a state machine whose every step returns the
//! transmissions and deliveries that the caller carries out.
use vstd::prelude::*;

use crate::at_address::{broadcast_address, ATAddress};
use crate::packets::{
    data_bytes, AODVPacket, AODVPacketBody, DataPacket, RouteErrorPacket, RouteReplyPacket,
    RouteRequestPacket,
};
use crate::routing_table::{accepts_route, live_route, neighbor_routes, Entry, Route, RoutingTable};

verus! {

/// `a` is newer than `b` in the modular order of 16-bit sequence numbers:
/// `(a - b)` read as a signed 16-bit number is positive.
pub open spec fn newer(a: u16, b: u16) -> bool {
    let d = (a as int - b as int) % 65536;
    0 < d < 32768
}

/// Whether `new_sequence_number` is newer than `old_sequence_number`.
pub fn sequence_number_newer(new_sequence_number: u16, old_sequence_number: u16) -> (r: bool)
    ensures
        r == newer(new_sequence_number, old_sequence_number),
{
    let difference = new_sequence_number.wrapping_sub(old_sequence_number);
    difference != 0 && difference < 0x8000
}

/// `x + 1`, wrapping from `FFFF` to `0`.
pub open spec fn next_sequence(x: u16) -> u16 {
    ((x as int + 1) % 65536) as u16
}

/// The counter after observing `observed`: `observed` if it is newer, else unchanged.
pub open spec fn advanced_sequence(current: u16, observed: u16) -> u16 {
    if newer(observed, current) {
        observed
    } else {
        current
    }
}

/// One more hop, staying at 255 once there.
pub open spec fn one_more_hop(hop_count: u8) -> u8 {
    if hop_count < 255 {
        (hop_count + 1) as u8
    } else {
        255
    }
}

/// Each update of the sequence counter leaves it where it was or moves it to a
/// newer value, never to an older one: taking the newer of the counter and an
/// observed number, and counting up by one.
pub proof fn lemma_sequence_never_moves_backward(current: u16, observed: u16)
    ensures
        advanced_sequence(current, observed) == current || newer(
            advanced_sequence(current, observed),
            current,
        ),
        !newer(current, advanced_sequence(current, observed)),
        newer(next_sequence(current), current),
{
}

/// Something the controller asks its caller to do.
#[derive(Debug)]
pub enum Action {
    /// Hand `data` to the radio for `destination`: a neighbour, or the broadcast
    /// address for all of them.
    Transmit { destination: ATAddress, data: Vec<u8> },
    /// Give the application a payload that `origin` sent to this node.
    Deliver { origin: ATAddress, payload: Vec<u8> },
}

/// An action as values.
pub enum Output {
    Transmit { destination: ATAddress, data: Seq<u8> },
    Deliver { origin: ATAddress, payload: Seq<u8> },
}

impl View for Action {
    type V = Output;

    open spec fn view(&self) -> Output {
        match self {
            Action::Transmit { destination, data } => Output::Transmit {
                destination: *destination,
                data: data@,
            },
            Action::Deliver { origin, payload } => Output::Deliver {
                origin: *origin,
                payload: payload@,
            },
        }
    }
}

/// The actions as values.
pub open spec fn outputs(actions: Seq<Action>) -> Seq<Output> {
    actions.map_values(|a: Action| a@)
}

/// The controller's state as values.
pub struct ControllerState {
    /// This node's address.
    pub address: ATAddress,
    /// The routing table, per destination.
    pub routes: Map<ATAddress, Entry>,
    /// Payloads waiting for a route, with their destinations, oldest first.
    pub pending: Seq<(ATAddress, Seq<u8>)>,
    /// The `(origin, id)` pairs of the route requests handled so far.
    pub seen: Set<(ATAddress, u16)>,
    pub request_id: u16,
    pub sequence: u16,
    /// How long, in milliseconds, a neighbour may stay silent.
    pub hello_timeout: u64,
}

/// The payloads waiting for `destination`, oldest first.
pub open spec fn pending_for(pending: Seq<(ATAddress, Seq<u8>)>, destination: ATAddress) -> Seq<
    Seq<u8>,
>
    decreases pending.len(),
{
    if pending.len() == 0 {
        Seq::empty()
    } else {
        let before = pending_for(pending.drop_last(), destination);
        if pending.last().0 == destination {
            before.push(pending.last().1)
        } else {
            before
        }
    }
}

/// The waiting payloads for other destinations than `destination`, in order.
pub open spec fn pending_except(
    pending: Seq<(ATAddress, Seq<u8>)>,
    destination: ATAddress,
) -> Seq<(ATAddress, Seq<u8>)>
    decreases pending.len(),
{
    if pending.len() == 0 {
        Seq::empty()
    } else {
        let before = pending_except(pending.drop_last(), destination);
        if pending.last().0 == destination {
            before
        } else {
            before.push(pending.last())
        }
    }
}

/// DATA packets from `origin` to `destination` with the given payloads, each sent
/// to `next_hop`.
pub open spec fn data_outputs(
    payloads: Seq<Seq<u8>>,
    destination: ATAddress,
    origin: ATAddress,
    next_hop: ATAddress,
) -> Seq<Output> {
    payloads.map_values(
        |payload: Seq<u8>|
            Output::Transmit { destination: next_hop, data: data_bytes(destination, origin, payload) },
    )
}

/// Sends everything waiting for `destination` through `next_hop` and forgets it.
pub open spec fn flush_step(s: ControllerState, destination: ATAddress, next_hop: ATAddress) -> (
    ControllerState,
    Seq<Output>,
) {
    (
        ControllerState { pending: pending_except(s.pending, destination), ..s },
        data_outputs(pending_for(s.pending, destination), destination, s.address, next_hop),
    )
}

/// The last sequence number that `routes` holds for `destination`, live or not.
pub open spec fn last_known_sequence(routes: Map<ATAddress, Entry>, destination: ATAddress) -> Option<u16> {
    if routes.contains_key(destination) {
        Some(routes[destination].sequence())
    } else {
        None
    }
}

/// Installs a route as `add_route` does; if it is installed, sends what was
/// waiting for its destination.
pub open spec fn install_step(
    s: ControllerState,
    destination: ATAddress,
    sequence: u16,
    next_hop: ATAddress,
    hop_count: u8,
    now: u64,
) -> (ControllerState, Seq<Output>) {
    if accepts_route(s.routes, s.address, destination, sequence) {
        let route = Route { destination_sequence: sequence, next_hop, hop_count, last_seen: now };
        flush_step(
            ControllerState { routes: s.routes.insert(destination, Entry::Route(route)), ..s },
            destination,
            next_hop,
        )
    } else {
        (s, Seq::empty())
    }
}

/// A transmission to every neighbour.
pub open spec fn broadcast_output(data: Seq<u8>) -> Output {
    Output::Transmit { destination: broadcast_address(), data }
}

/// The application sends `data` to `destination`: straight along a live route, or
/// else a route request is broadcast and the payload waits for the route.
pub open spec fn send_step(s: ControllerState, destination: ATAddress, data: Seq<u8>) -> (
    ControllerState,
    Seq<Output>,
) {
    match live_route(s.routes, destination) {
        Some(route) => (
            s,
            seq![Output::Transmit { destination: route.next_hop, data: data_bytes(destination, s.address, data) }],
        ),
        None => {
            let sequence = next_sequence(s.sequence);
            let request = RouteRequestPacket {
                hop_count: 0,
                id: s.request_id,
                destination,
                destination_sequence: last_known_sequence(s.routes, destination),
                origin: s.address,
                origin_sequence: sequence,
            };
            (
                ControllerState {
                    request_id: next_sequence(s.request_id),
                    sequence,
                    pending: s.pending.push((destination, data)),
                    ..s
                },
                seq![broadcast_output(request.spec_bytes())],
            )
        },
    }
}

/// A HELLO: a route reply for this node, with a fresh sequence number and no
/// request origin, broadcast.
pub open spec fn hello_step(s: ControllerState) -> (ControllerState, Seq<Output>) {
    let sequence = next_sequence(s.sequence);
    let hello = RouteReplyPacket {
        hop_count: 0,
        request_destination: s.address,
        request_destination_sequence: sequence,
        request_origin: None,
    };
    (ControllerState { sequence, ..s }, seq![broadcast_output(hello.spec_bytes())])
}

/// The known route answers the request: the request does not ask for a fresher
/// route than the one known.
pub open spec fn answers_request(p: RouteRequestPacket, route: Route) -> bool {
    match p.destination_sequence {
        Some(wanted) => !newer(wanted, route.destination_sequence),
        None => true,
    }
}

/// What a new route request leads to once the reverse route is in place: a reply
/// to `sender` when a fresh enough route is known, else the request goes on with
/// one more hop.
pub open spec fn request_answer_step(s: ControllerState, sender: ATAddress, p: RouteRequestPacket) -> (
    ControllerState,
    Seq<Output>,
) {
    let forward = RouteRequestPacket { hop_count: one_more_hop(p.hop_count), ..p };
    match live_route(s.routes, p.destination) {
        Some(route) => if answers_request(p, route) {
            if p.destination == s.address {
                let sequence = next_sequence(s.sequence);
                let reply = RouteReplyPacket {
                    hop_count: route.hop_count,
                    request_destination: p.destination,
                    request_destination_sequence: sequence,
                    request_origin: Some(p.origin),
                };
                (
                    ControllerState { sequence, ..s },
                    seq![Output::Transmit { destination: sender, data: reply.spec_bytes() }],
                )
            } else {
                let reply = RouteReplyPacket {
                    hop_count: route.hop_count,
                    request_destination: p.destination,
                    request_destination_sequence: route.destination_sequence,
                    request_origin: Some(p.origin),
                };
                (s, seq![Output::Transmit { destination: sender, data: reply.spec_bytes() }])
            }
        } else {
            (s, seq![broadcast_output(forward.spec_bytes())])
        },
        None => (s, seq![broadcast_output(forward.spec_bytes())]),
    }
}

/// A route request `p` arrives from the neighbour `sender`. Requests of this node
/// and requests seen before are dropped. Otherwise the request is recorded, the
/// counter catches up with the origin's, the route back to the origin is
/// installed, and the request is answered or passed on.
pub open spec fn route_request_step(
    s: ControllerState,
    sender: ATAddress,
    p: RouteRequestPacket,
    now: u64,
) -> (ControllerState, Seq<Output>) {
    if p.origin == s.address || s.seen.contains((p.origin, p.id)) {
        (s, Seq::empty())
    } else {
        let s1 = ControllerState {
            seen: s.seen.insert((p.origin, p.id)),
            sequence: advanced_sequence(s.sequence, p.origin_sequence),
            ..s
        };
        let (s2, flushed) = install_step(
            s1,
            p.origin,
            p.origin_sequence,
            sender,
            one_more_hop(p.hop_count),
            now,
        );
        let (s3, answer) = request_answer_step(s2, sender, p);
        (s3, flushed + answer)
    }
}

/// A route reply `p` arrives from the neighbour `sender`: the route to its
/// destination is installed, and unless it is a HELLO or meant for this node it
/// goes on towards the request's origin, or a route error is broadcast when no
/// route to the origin is known.
pub open spec fn route_reply_step(s: ControllerState, sender: ATAddress, p: RouteReplyPacket, now: u64) -> (
    ControllerState,
    Seq<Output>,
) {
    let s1 = ControllerState {
        sequence: advanced_sequence(s.sequence, p.request_destination_sequence),
        ..s
    };
    let (s2, flushed) = install_step(
        s1,
        p.request_destination,
        p.request_destination_sequence,
        sender,
        one_more_hop(p.hop_count),
        now,
    );
    match p.request_origin {
        None => (s2, flushed),
        Some(origin) => if origin == s2.address {
            (s2, flushed)
        } else {
            match live_route(s2.routes, origin) {
                None => (
                    s2,
                    flushed.push(broadcast_output(RouteErrorPacket { destination: origin }.spec_bytes())),
                ),
                Some(route) => (
                    s2,
                    flushed.push(
                        Output::Transmit {
                            destination: route.next_hop,
                            data: RouteReplyPacket { hop_count: one_more_hop(p.hop_count), ..p }.spec_bytes(),
                        },
                    ),
                ),
            }
        },
    }
}

/// A route error `p` arrives from the neighbour `sender`: the route to its
/// destination through `sender` becomes unreachable, and only then is the error
/// passed on.
pub open spec fn route_error_step(s: ControllerState, sender: ATAddress, p: RouteErrorPacket) -> (
    ControllerState,
    Seq<Output>,
) {
    if crate::routing_table::removes_route(s.routes, s.address, p.destination, sender) {
        (
            ControllerState {
                routes: s.routes.insert(
                    p.destination,
                    Entry::UnreachableDestination {
                        destination_sequence: s.routes[p.destination].sequence(),
                    },
                ),
                ..s
            },
            seq![broadcast_output(p.spec_bytes())],
        )
    } else {
        (s, Seq::empty())
    }
}

/// A DATA packet arrives: delivered here if it is for this node, else sent on
/// along a live route, else answered with a broadcast route error.
pub open spec fn data_step(
    s: ControllerState,
    destination: ATAddress,
    origin: ATAddress,
    payload: Seq<u8>,
) -> Seq<Output> {
    if destination == s.address {
        seq![Output::Deliver { origin, payload }]
    } else {
        match live_route(s.routes, destination) {
            None => seq![broadcast_output(RouteErrorPacket { destination }.spec_bytes())],
            Some(route) => seq![
                Output::Transmit {
                    destination: route.next_hop,
                    data: data_bytes(destination, origin, payload),
                },
            ],
        }
    }
}

/// A packet from the neighbour `sender` is handled by the step of its type.
pub open spec fn packet_step(s: ControllerState, packet: AODVPacket, now: u64) -> (
    ControllerState,
    Seq<Output>,
) {
    match packet.body {
        AODVPacketBody::RouteRequest(p) => route_request_step(s, packet.sender, p, now),
        AODVPacketBody::RouteReply(p) => route_reply_step(s, packet.sender, p, now),
        AODVPacketBody::RouteError(p) => route_error_step(s, packet.sender, p),
        AODVPacketBody::Data(p) => (s, data_step(s, p.destination, p.origin, p.payload@)),
    }
}

/// The neighbour's last HELLO is more than `timeout` milliseconds before `now`.
pub open spec fn timed_out(route: Route, now: u64, timeout: u64) -> bool {
    now as int - route.last_seen as int > timeout as int
}

/// The routes that depend on a timed-out neighbour among `neighbors`, neighbour by
/// neighbour, each in table order.
pub open spec fn expired_routes(
    neighbors: Seq<Route>,
    entries: Seq<(ATAddress, Entry)>,
    now: u64,
    timeout: u64,
) -> Seq<(ATAddress, Route)>
    decreases neighbors.len(),
{
    if neighbors.len() == 0 {
        Seq::empty()
    } else {
        let before = expired_routes(neighbors.drop_last(), entries, now, timeout);
        if timed_out(neighbors.last(), now, timeout) {
            before + crate::routing_table::routes_via(entries, neighbors.last().next_hop)
        } else {
            before
        }
    }
}

/// `routes` after `remove_route` of each listed destination through its listed
/// next hop, in order.
pub open spec fn invalidate_all(
    routes: Map<ATAddress, Entry>,
    own_address: ATAddress,
    list: Seq<(ATAddress, Route)>,
) -> Map<ATAddress, Entry>
    decreases list.len(),
{
    if list.len() == 0 {
        routes
    } else {
        let m = invalidate_all(routes, own_address, list.drop_last());
        let (destination, route) = list.last();
        if crate::routing_table::removes_route(m, own_address, destination, route.next_hop) {
            m.insert(
                destination,
                Entry::UnreachableDestination { destination_sequence: m[destination].sequence() },
            )
        } else {
            m
        }
    }
}

/// A broadcast route error for each listed destination.
pub open spec fn route_error_outputs(list: Seq<(ATAddress, Route)>) -> Seq<Output> {
    list.map_values(
        |e: (ATAddress, Route)| broadcast_output(RouteErrorPacket { destination: e.0 }.spec_bytes()),
    )
}

/// The same route request handled once for each arrival, in order: the final
/// state and everything the arrivals led to.
pub open spec fn repeated_route_request(
    s: ControllerState,
    p: RouteRequestPacket,
    arrivals: Seq<(ATAddress, u64)>,
) -> (ControllerState, Seq<Output>)
    decreases arrivals.len(),
{
    if arrivals.len() == 0 {
        (s, Seq::empty())
    } else {
        let (s1, before) = repeated_route_request(s, p, arrivals.drop_last());
        let (s2, last) = route_request_step(s1, arrivals.last().0, p, arrivals.last().1);
        (s2, before + last)
    }
}

/// Once a route request has been handled, the same `(origin, id)` is dropped
/// whenever it comes again, from any neighbour at any time.
pub proof fn lemma_route_request_seen(
    s: ControllerState,
    sender: ATAddress,
    p: RouteRequestPacket,
    now: u64,
    later_sender: ATAddress,
    later: u64,
)
    ensures
        ({
            let s1 = route_request_step(s, sender, p, now).0;
            route_request_step(s1, later_sender, p, later) == (s1, Seq::<Output>::empty())
        }),
{
}

/// A route request that arrives any number of times, through any neighbours, is
/// answered or passed on at most once: all arrivals together lead to exactly what
/// the first one alone led to.
pub proof fn lemma_duplicate_route_requests(
    s: ControllerState,
    p: RouteRequestPacket,
    arrivals: Seq<(ATAddress, u64)>,
)
    requires
        arrivals.len() >= 1,
    ensures
        repeated_route_request(s, p, arrivals) == route_request_step(
            s,
            arrivals[0].0,
            p,
            arrivals[0].1,
        ),
    decreases arrivals.len(),
{
    let first = route_request_step(s, arrivals[0].0, p, arrivals[0].1);
    let previous = repeated_route_request(s, p, arrivals.drop_last());
    let last = route_request_step(previous.0, arrivals.last().0, p, arrivals.last().1);
    assert(repeated_route_request(s, p, arrivals) == (last.0, previous.1 + last.1));
    if arrivals.len() == 1 {
        assert(arrivals.last() == arrivals[0]);
        assert(previous == (s, Seq::<Output>::empty()));
        assert(Seq::<Output>::empty() + first.1 =~= first.1);
    } else {
        lemma_duplicate_route_requests(s, p, arrivals.drop_last());
        assert(arrivals.drop_last()[0] == arrivals[0]);
        assert(previous == first);
        lemma_route_request_seen(s, arrivals[0].0, p, arrivals[0].1, arrivals.last().0, arrivals.last().1);
        assert(last == (first.0, Seq::<Output>::empty()));
        assert(first.1 + Seq::<Output>::empty() =~= first.1);
    }
}

proof fn lemma_pending_except_clears(pending: Seq<(ATAddress, Seq<u8>)>, destination: ATAddress)
    ensures
        pending_for(pending_except(pending, destination), destination) == Seq::<Seq<u8>>::empty(),
    decreases pending.len(),
{
    if pending.len() > 0 {
        lemma_pending_except_clears(pending.drop_last(), destination);
        let before = pending_except(pending.drop_last(), destination);
        if pending.last().0 != destination {
            assert(before.push(pending.last()).drop_last() =~= before);
        }
    }
}

/// A payload sent while no route is known waits; the first route reply that
/// installs a route to its destination sends it, with everything else that waited
/// for that destination, oldest first, as DATA through the replying neighbour, and
/// removes it from the buffer, so that no later step sends it again. Payloads for
/// other destinations stay as they were.
pub proof fn lemma_pending_flushed_once(
    s: ControllerState,
    destination: ATAddress,
    data: Seq<u8>,
    sender: ATAddress,
    reply: RouteReplyPacket,
    now: u64,
)
    requires
        live_route(s.routes, destination) is None,
        destination != s.address,
        reply.request_destination == destination,
    ensures
        ({
            let s1 = send_step(s, destination, data).0;
            let (s2, out) = route_reply_step(s1, sender, reply, now);
            let waiting = pending_for(s.pending, destination).push(data);
            &&& pending_for(s1.pending, destination) == waiting
            &&& waiting.len() <= out.len()
            &&& out.subrange(0, waiting.len() as int) == data_outputs(
                waiting,
                destination,
                s.address,
                sender,
            )
            &&& pending_for(s2.pending, destination) == Seq::<Seq<u8>>::empty()
            &&& s2.pending == pending_except(s1.pending, destination)
        }),
{
    let s1 = send_step(s, destination, data).0;
    let waiting = pending_for(s.pending, destination).push(data);
    assert(s1.pending.drop_last() =~= s.pending);
    assert(pending_for(s1.pending, destination) == waiting);
    lemma_pending_except_clears(s1.pending, destination);
    let s_seq = ControllerState {
        sequence: advanced_sequence(s1.sequence, reply.request_destination_sequence),
        ..s1
    };
    assert(accepts_route(s_seq.routes, s_seq.address, destination, reply.request_destination_sequence));
    let (s2, out) = route_reply_step(s1, sender, reply, now);
    let flushed = data_outputs(waiting, destination, s.address, sender);
    assert(out.subrange(0, waiting.len() as int) =~= flushed);
}

/// The routing controller of one node.
pub struct AODVController {
    seen_requests: Vec<(ATAddress, u16)>,
    routing_table: RoutingTable,
    outbound_messages: Vec<(ATAddress, Vec<u8>)>,
    address: ATAddress,
    current_route_request_id: u16,
    current_sequence_number: u16,
    hello_timeout: u64,
}

impl View for AODVController {
    type V = ControllerState;

    closed spec fn view(&self) -> ControllerState {
        ControllerState {
            address: self.address,
            routes: self.routing_table.map(),
            pending: self.outbound_messages@.map_values(|m: (ATAddress, Vec<u8>)| (m.0, m.1@)),
            seen: Set::new(|k: (ATAddress, u16)| self.seen_requests@.contains(k)),
            request_id: self.current_route_request_id,
            sequence: self.current_sequence_number,
            hello_timeout: self.hello_timeout,
        }
    }
}

impl AODVController {
    /// The entries of the routing table, in table order.
    pub closed spec fn table_entries(&self) -> Seq<(ATAddress, Entry)> {
        self.routing_table@
    }

    /// The controller's invariant: its routing table is well formed and belongs to
    /// this node.
    pub closed spec fn wf(&self) -> bool {
        &&& self.routing_table.wf()
        &&& self.routing_table.own_address() == self.address
    }

    /// A controller for the node `address` that knows only itself.
    pub fn new(address: ATAddress, hello_timeout: u64, now: u64) -> (r: AODVController)
        ensures
            r.wf(),
            r@.address == address,
            r@.routes == Map::<ATAddress, Entry>::empty().insert(
                address,
                Entry::Route(
                    Route { destination_sequence: 0, next_hop: address, hop_count: 0, last_seen: now },
                ),
            ),
            r@.pending == Seq::<(ATAddress, Seq<u8>)>::empty(),
            r@.seen == Set::<(ATAddress, u16)>::empty(),
            r@.request_id == 0,
            r@.sequence == 0,
            r@.hello_timeout == hello_timeout,
    {
        let r = AODVController {
            seen_requests: Vec::new(),
            routing_table: RoutingTable::new(address, now),
            outbound_messages: Vec::new(),
            address,
            current_route_request_id: 0,
            current_sequence_number: 0,
            hello_timeout,
        };
        assert(r@.pending =~= Seq::<(ATAddress, Seq<u8>)>::empty());
        assert(r@.seen =~= Set::<(ATAddress, u16)>::empty());
        r
    }

    /// This node's address.
    pub fn address(&self) -> (r: ATAddress)
        ensures
            r == self@.address,
    {
        self.address
    }

    /// The routing table.
    pub fn routing_table(&self) -> (r: &RoutingTable)
        requires
            self.wf(),
        ensures
            r.wf(),
            r.map() == self@.routes,
            r@ == self.table_entries(),
            r.own_address() == self@.address,
    {
        &self.routing_table
    }

    /// Moves the sequence counter to `new_sequence_number` if that is newer.
    fn update_sequence_number(&mut self, new_sequence_number: u16)
        ensures
            final(self)@ == (ControllerState {
                sequence: advanced_sequence(old(self)@.sequence, new_sequence_number),
                ..old(self)@
            }),
            final(self).wf() == old(self).wf(),
            final(self).table_entries() == old(self).table_entries(),
    {
        if sequence_number_newer(new_sequence_number, self.current_sequence_number) {
            self.current_sequence_number = new_sequence_number;
        }
    }

    /// Counts the sequence counter up by one and returns the new value.
    fn next_sequence_number(&mut self) -> (r: u16)
        ensures
            r == next_sequence(old(self)@.sequence),
            final(self)@ == (ControllerState { sequence: r, ..old(self)@ }),
            final(self).wf() == old(self).wf(),
            final(self).table_entries() == old(self).table_entries(),
    {
        self.current_sequence_number = self.current_sequence_number.wrapping_add(1);
        self.current_sequence_number
    }

    /// Whether the route request `(origin, id)` was handled before.
    fn has_seen(&self, origin: ATAddress, id: u16) -> (r: bool)
        ensures
            r == self@.seen.contains((origin, id)),
    {
        let mut i: usize = 0;
        while i < self.seen_requests.len()
            invariant
                i <= self.seen_requests@.len(),
                forall|k: int| 0 <= k < i ==> #[trigger] self.seen_requests@[k] != (origin, id),
            decreases self.seen_requests@.len() - i,
        {
            let (seen_origin, seen_id) = self.seen_requests[i];
            if seen_origin == origin && seen_id == id {
                assert(self.seen_requests@.contains((origin, id))) by {
                    assert(self.seen_requests@[i as int] == (origin, id));
                }
                return true;
            }
            i = i + 1;
        }
        false
    }

    /// Records the route request `(origin, id)` as handled.
    fn mark_seen(&mut self, origin: ATAddress, id: u16)
        ensures
            final(self)@ == (ControllerState {
                seen: old(self)@.seen.insert((origin, id)),
                ..old(self)@
            }),
            final(self).wf() == old(self).wf(),
            final(self).table_entries() == old(self).table_entries(),
    {
        let ghost before = self.seen_requests@;
        self.seen_requests.push((origin, id));
        assert(self@.seen =~= old(self)@.seen.insert((origin, id))) by {
            assert forall|k: (ATAddress, u16)| #[trigger] self.seen_requests@.contains(k) <==> (
            before.contains(k) || k == (origin, id)) by {
                if before.contains(k) {
                    let j = choose|j: int| 0 <= j < before.len() && before[j] == k;
                    assert(self.seen_requests@[j] == k);
                }
                if k == (origin, id) {
                    assert(self.seen_requests@[before.len() as int] == k);
                }
                if self.seen_requests@.contains(k) {
                    let j = choose|j: int| 0 <= j < self.seen_requests@.len() && self.seen_requests@[j] == k;
                    if j < before.len() {
                        assert(before[j] == k);
                    }
                }
            }
        }
    }

    /// Sends every payload waiting for `destination` as a DATA packet to the next
    /// hop of `route`, oldest first, and forgets them.
    fn send_outbound_messages(&mut self, destination: ATAddress, route: Route) -> (r: Vec<Action>)
        ensures
            final(self)@ == flush_step(old(self)@, destination, route.next_hop).0,
            outputs(r@) == flush_step(old(self)@, destination, route.next_hop).1,
            final(self).wf() == old(self).wf(),
            final(self).table_entries() == old(self).table_entries(),
    {
        let ghost pending = old(self)@.pending;
        let mut kept: Vec<(ATAddress, Vec<u8>)> = Vec::new();
        let mut actions: Vec<Action> = Vec::new();
        let mut i: usize = 0;
        while i < self.outbound_messages.len()
            invariant
                i <= self.outbound_messages@.len(),
                pending == self.outbound_messages@.map_values(|m: (ATAddress, Vec<u8>)| (m.0, m.1@)),
                kept@.map_values(|m: (ATAddress, Vec<u8>)| (m.0, m.1@)) == pending_except(
                    pending.subrange(0, i as int),
                    destination,
                ),
                outputs(actions@) == data_outputs(
                    pending_for(pending.subrange(0, i as int), destination),
                    destination,
                    self.address,
                    route.next_hop,
                ),
            decreases self.outbound_messages@.len() - i,
        {
            let ghost prefix = pending.subrange(0, i as int);
            let ghost next = pending.subrange(0, i + 1);
            assert(next.drop_last() =~= prefix);
            assert(next.last() == pending[i as int]);
            let message_destination = self.outbound_messages[i].0;
            let payload = vstd::slice::slice_to_vec(self.outbound_messages[i].1.as_slice());
            if message_destination == destination {
                let packet = DataPacket { destination, origin: self.address, payload };
                let data = packet.to_bytes();
                let ghost before = actions@;
                actions.push(Action::Transmit { destination: route.next_hop, data });
                assert(outputs(actions@) =~= outputs(before).push(actions@.last()@));
                assert(data_outputs(pending_for(next, destination), destination, self.address, route.next_hop)
                    =~= data_outputs(pending_for(prefix, destination), destination, self.address, route.next_hop).push(actions@.last()@));
            } else {
                let ghost before = kept@;
                kept.push((message_destination, payload));
                assert(kept@.map_values(|m: (ATAddress, Vec<u8>)| (m.0, m.1@)) =~= before.map_values(
                    |m: (ATAddress, Vec<u8>)| (m.0, m.1@),
                ).push((message_destination, payload@)));
            }
            i = i + 1;
        }
        assert(pending.subrange(0, i as int) =~= pending);
        self.outbound_messages = kept;
        actions
    }

    /// Installs a route with `add_route`; when it is installed, sends what was
    /// waiting for `destination` along it.
    fn install_route(
        &mut self,
        destination: ATAddress,
        destination_sequence: u16,
        next_hop: ATAddress,
        hop_count: u8,
        now: u64,
    ) -> (r: Vec<Action>)
        requires
            old(self).wf(),
        ensures
            final(self).wf(),
            final(self)@ == install_step(old(self)@, destination, destination_sequence, next_hop, hop_count, now).0,
            outputs(r@) == install_step(old(self)@, destination, destination_sequence, next_hop, hop_count, now).1,
    {
        match self.routing_table.add_route(destination, destination_sequence, next_hop, hop_count, now) {
            Some(new_route) => self.send_outbound_messages(destination, new_route),
            None => {
                let none: Vec<Action> = Vec::new();
                assert(outputs(none@) =~= Seq::<Output>::empty());
                none
            },
        }
    }

    /// Sends `data` to `address`: as DATA along a live route if there is one;
    /// else a route request with a fresh id and the next sequence number is
    /// broadcast, and `data` waits until a route to `address` is installed (also
    /// when the caller fails to broadcast the request: a route learned otherwise
    /// still delivers it).
    pub fn send(&mut self, address: ATAddress, data: Vec<u8>) -> (r: Vec<Action>)
        requires
            old(self).wf(),
        ensures
            final(self).wf(),
            final(self)@ == send_step(old(self)@, address, data@).0,
            outputs(r@) == send_step(old(self)@, address, data@).1,
    {
        let mut actions: Vec<Action> = Vec::new();
        if let Some(route) = self.routing_table.get_route(address) {
            let packet = DataPacket { destination: address, origin: self.address, payload: data };
            actions.push(Action::Transmit { destination: route.next_hop, data: packet.to_bytes() });
            assert(outputs(actions@) =~= send_step(old(self)@, address, packet.payload@).1);
            return actions;
        }
        let id = self.current_route_request_id;
        self.current_route_request_id = self.current_route_request_id.wrapping_add(1);
        let origin_sequence = self.next_sequence_number();
        let packet = RouteRequestPacket {
            hop_count: 0,
            id,
            destination: address,
            destination_sequence: self.routing_table.get_last_known_sequence(address),
            origin: self.address,
            origin_sequence,
        };
        actions.push(Action::Transmit { destination: ATAddress::broadcast(), data: packet.to_bytes() });
        let ghost before = self.outbound_messages@;
        self.outbound_messages.push((address, data));
        assert(self@.pending =~= old(self)@.pending.push((address, data@))) by {
            assert(self.outbound_messages@ == before.push((address, data)));
        }
        assert(outputs(actions@) =~= send_step(old(self)@, address, data@).1);
        actions
    }

    /// Broadcasts a HELLO with a fresh sequence number.
    pub fn send_hello(&mut self) -> (r: Vec<Action>)
        requires
            old(self).wf(),
        ensures
            final(self).wf(),
            final(self)@ == hello_step(old(self)@).0,
            outputs(r@) == hello_step(old(self)@).1,
    {
        let sequence = self.next_sequence_number();
        let packet = RouteReplyPacket {
            hop_count: 0,
            request_destination: self.address,
            request_destination_sequence: sequence,
            request_origin: None,
        };
        let mut actions: Vec<Action> = Vec::new();
        actions.push(Action::Transmit { destination: ATAddress::broadcast(), data: packet.to_bytes() });
        assert(outputs(actions@) =~= hello_step(old(self)@).1);
        actions
    }

    /// Answers a new route request once the reverse route is installed.
    fn answer_route_request(&mut self, sender: ATAddress, packet: &RouteRequestPacket) -> (r: Vec<Action>)
        requires
            old(self).wf(),
        ensures
            final(self).wf(),
            final(self)@ == request_answer_step(old(self)@, sender, *packet).0,
            outputs(r@) == request_answer_step(old(self)@, sender, *packet).1,
    {
        let mut actions: Vec<Action> = Vec::new();
        if let Some(route) = self.routing_table.get_route(packet.destination) {
            let answers = match packet.destination_sequence {
                Some(wanted) => !sequence_number_newer(wanted, route.destination_sequence),
                None => true,
            };
            if answers {
                let sequence = if packet.destination == self.address {
                    self.next_sequence_number()
                } else {
                    route.destination_sequence
                };
                let reply = RouteReplyPacket {
                    hop_count: route.hop_count,
                    request_destination: packet.destination,
                    request_destination_sequence: sequence,
                    request_origin: Some(packet.origin),
                };
                actions.push(Action::Transmit { destination: sender, data: reply.to_bytes() });
                assert(outputs(actions@) =~= request_answer_step(old(self)@, sender, *packet).1);
                return actions;
            }
        }
        let forward = RouteRequestPacket { hop_count: packet.hop_count.saturating_add(1), ..*packet };
        assert(forward == RouteRequestPacket { hop_count: one_more_hop(packet.hop_count), ..*packet });
        actions.push(Action::Transmit { destination: ATAddress::broadcast(), data: forward.to_bytes() });
        assert(outputs(actions@) =~= request_answer_step(old(self)@, sender, *packet).1);
        actions
    }

    /// Handles a route request from the neighbour `sender`.
    pub fn handle_route_request(
        &mut self,
        sender: ATAddress,
        packet: &RouteRequestPacket,
        now: u64,
    ) -> (r: Vec<Action>)
        requires
            old(self).wf(),
        ensures
            final(self).wf(),
            final(self)@ == route_request_step(old(self)@, sender, *packet, now).0,
            outputs(r@) == route_request_step(old(self)@, sender, *packet, now).1,
    {
        if packet.origin == self.address || self.has_seen(packet.origin, packet.id) {
            let none: Vec<Action> = Vec::new();
            assert(outputs(none@) =~= Seq::<Output>::empty());
            return none;
        }
        self.mark_seen(packet.origin, packet.id);
        self.update_sequence_number(packet.origin_sequence);
        let mut actions = self.install_route(
            packet.origin,
            packet.origin_sequence,
            sender,
            packet.hop_count.saturating_add(1),
            now,
        );
        let mut answer = self.answer_route_request(sender, packet);
        let ghost flushed = actions@;
        let ghost answered = answer@;
        actions.append(&mut answer);
        assert(outputs(actions@) =~= outputs(flushed) + outputs(answered));
        actions
    }

    /// Handles a route reply from the neighbour `sender`.
    pub fn handle_route_reply(&mut self, sender: ATAddress, packet: &RouteReplyPacket, now: u64) -> (r: Vec<Action>)
        requires
            old(self).wf(),
        ensures
            final(self).wf(),
            final(self)@ == route_reply_step(old(self)@, sender, *packet, now).0,
            outputs(r@) == route_reply_step(old(self)@, sender, *packet, now).1,
    {
        self.update_sequence_number(packet.request_destination_sequence);
        let mut actions = self.install_route(
            packet.request_destination,
            packet.request_destination_sequence,
            sender,
            packet.hop_count.saturating_add(1),
            now,
        );
        let request_origin = match packet.request_origin {
            // a HELLO
            None => return actions,
            Some(origin) => origin,
        };
        if request_origin == self.address {
            return actions;
        }
        let ghost flushed = actions@;
        match self.routing_table.get_route(request_origin) {
            None => {
                let error = RouteErrorPacket { destination: request_origin };
                actions.push(Action::Transmit { destination: ATAddress::broadcast(), data: error.to_bytes() });
            },
            Some(route) => {
                let forward = RouteReplyPacket { hop_count: packet.hop_count.saturating_add(1), ..*packet };
                assert(forward == RouteReplyPacket { hop_count: one_more_hop(packet.hop_count), ..*packet });
                actions.push(Action::Transmit { destination: route.next_hop, data: forward.to_bytes() });
            },
        }
        assert(outputs(actions@) =~= outputs(flushed).push(actions@.last()@));
        actions
    }

    /// Handles a route error from the neighbour `sender`.
    pub fn handle_route_error(&mut self, sender: ATAddress, packet: &RouteErrorPacket) -> (r: Vec<Action>)
        requires
            old(self).wf(),
        ensures
            final(self).wf(),
            final(self)@ == route_error_step(old(self)@, sender, *packet).0,
            outputs(r@) == route_error_step(old(self)@, sender, *packet).1,
    {
        let mut actions: Vec<Action> = Vec::new();
        if !self.routing_table.remove_route(packet.destination, sender) {
            // nothing changed, so nobody needs to hear of it
            assert(outputs(actions@) =~= Seq::<Output>::empty());
            return actions;
        }
        actions.push(Action::Transmit { destination: ATAddress::broadcast(), data: packet.to_bytes() });
        assert(outputs(actions@) =~= route_error_step(old(self)@, sender, *packet).1);
        actions
    }

    /// Handles a DATA packet.
    pub fn handle_data(&self, packet: &DataPacket) -> (r: Vec<Action>)
        requires
            self.wf(),
        ensures
            outputs(r@) == data_step(self@, packet.destination, packet.origin, packet.payload@),
    {
        let mut actions: Vec<Action> = Vec::new();
        if packet.destination == self.address {
            let payload = vstd::slice::slice_to_vec(packet.payload.as_slice());
            actions.push(Action::Deliver { origin: packet.origin, payload });
        } else {
            match self.routing_table.get_route(packet.destination) {
                None => {
                    let error = RouteErrorPacket { destination: packet.destination };
                    actions.push(Action::Transmit { destination: ATAddress::broadcast(), data: error.to_bytes() });
                },
                Some(route) => {
                    actions.push(Action::Transmit { destination: route.next_hop, data: packet.to_bytes() });
                },
            }
        }
        assert(outputs(actions@) =~= data_step(self@, packet.destination, packet.origin, packet.payload@));
        actions
    }

    /// Handles a packet by its type; `now` is the time in milliseconds.
    pub fn handle_packet(&mut self, packet: &AODVPacket, now: u64) -> (r: Vec<Action>)
        requires
            old(self).wf(),
        ensures
            final(self).wf(),
            final(self)@ == packet_step(old(self)@, *packet, now).0,
            outputs(r@) == packet_step(old(self)@, *packet, now).1,
    {
        let sender = packet.sender;
        match &packet.body {
            AODVPacketBody::RouteRequest(p) => self.handle_route_request(sender, p, now),
            AODVPacketBody::RouteReply(p) => self.handle_route_reply(sender, p, now),
            AODVPacketBody::RouteError(p) => self.handle_route_error(sender, p),
            AODVPacketBody::Data(p) => self.handle_data(p),
        }
    }


    /// Invalidates every route whose next hop is a neighbour not heard from for
    /// more than the HELLO timeout before `now`, and broadcasts a route error for
    /// each such destination.
    pub fn check_neighbor_hello(&mut self, now: u64) -> (r: Vec<Action>)
        requires
            old(self).wf(),
        ensures
            final(self).wf(),
            ({
                let expired = expired_routes(
                    neighbor_routes(old(self).table_entries(), old(self)@.address),
                    old(self).table_entries(),
                    now,
                    old(self)@.hello_timeout,
                );
                &&& final(self)@ == (ControllerState {
                    routes: invalidate_all(old(self)@.routes, old(self)@.address, expired),
                    ..old(self)@
                })
                &&& outputs(r@) == route_error_outputs(expired)
            }),
    {
        let ghost entries = self.routing_table@;
        let neighbors = self.routing_table.neighbors();
        let mut expired: Vec<(ATAddress, Route)> = Vec::new();
        let mut i: usize = 0;
        while i < neighbors.len()
            invariant
                i <= neighbors@.len(),
                self.wf(),
                entries == self.routing_table@,
                expired@ == expired_routes(neighbors@.subrange(0, i as int), entries, now, self.hello_timeout),
            decreases neighbors@.len() - i,
        {
            let neighbor = neighbors[i];
            assert(neighbors@.subrange(0, i + 1).drop_last() =~= neighbors@.subrange(0, i as int));
            if now > neighbor.last_seen && now - neighbor.last_seen > self.hello_timeout {
                let mut routes = self.routing_table.routes_with_next_hop(neighbor.next_hop);
                expired.append(&mut routes);
            }
            i = i + 1;
        }
        assert(neighbors@.subrange(0, i as int) =~= neighbors@);
        let ghost start = self@;
        let mut actions: Vec<Action> = Vec::new();
        let mut j: usize = 0;
        while j < expired.len()
            invariant
                j <= expired@.len(),
                self.wf(),
                start == old(self)@,
                self@ == (ControllerState {
                    routes: invalidate_all(start.routes, start.address, expired@.subrange(0, j as int)),
                    ..start
                }),
                outputs(actions@) == route_error_outputs(expired@.subrange(0, j as int)),
            decreases expired@.len() - j,
        {
            let (destination, route) = expired[j];
            assert(expired@.subrange(0, j + 1).drop_last() =~= expired@.subrange(0, j as int));
            self.routing_table.remove_route(destination, route.next_hop);
            let error = RouteErrorPacket { destination };
            let ghost before = actions@;
            actions.push(Action::Transmit { destination: ATAddress::broadcast(), data: error.to_bytes() });
            assert(outputs(actions@) =~= outputs(before).push(actions@.last()@));
            assert(route_error_outputs(expired@.subrange(0, j + 1)) =~= route_error_outputs(
                expired@.subrange(0, j as int),
            ).push(actions@.last()@));
            j = j + 1;
        }
        assert(expired@.subrange(0, j as int) =~= expired@);
        actions
    }

}

} // verus!
