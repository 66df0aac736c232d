//! The routing table: per destination, the freshest known route or the last
//! sequence number of a destination that became unreachable.
use vstd::prelude::*;

use crate::aodv::{newer, sequence_number_newer};
use crate::at_address::ATAddress;

verus! {

/// A route to some destination. `last_seen` is the time, in milliseconds of the
/// caller's clock, at which the route was last installed.
#[derive(Clone, Copy, Debug)]
pub struct Route {
    pub destination_sequence: u16,
    pub next_hop: ATAddress,
    pub hop_count: u8,
    pub last_seen: u64,
}

/// What the table knows of a destination.
#[derive(Clone, Copy, Debug)]
pub enum Entry {
    Route(Route),
    /// The route broke; the last sequence number is kept so that a later route
    /// request can tell others how fresh a route it needs.
    UnreachableDestination { destination_sequence: u16 },
}

impl Entry {
    /// The entry's sequence number, of either kind.
    pub open spec fn sequence(self) -> u16 {
        match self {
            Entry::Route(r) => r.destination_sequence,
            Entry::UnreachableDestination { destination_sequence } => destination_sequence,
        }
    }
}

/// The destinations of `entries`, mapped to their entries.
pub open spec fn entries_map(entries: Seq<(ATAddress, Entry)>) -> Map<ATAddress, Entry> {
    Map::new(
        |d: ATAddress| exists|i: int| 0 <= i < entries.len() && #[trigger] entries[i].0 == d,
        |d: ATAddress| entries[choose|i: int| 0 <= i < entries.len() && #[trigger] entries[i].0 == d].1,
    )
}

/// No destination occurs twice in `entries`.
pub open spec fn unique_destinations(entries: Seq<(ATAddress, Entry)>) -> bool {
    forall|i: int, j: int|
        0 <= i < entries.len() && 0 <= j < entries.len() && i != j ==> #[trigger] entries[i].0
            != #[trigger] entries[j].0
}

/// The live route to `destination` in `m`, if there is one.
pub open spec fn live_route(m: Map<ATAddress, Entry>, destination: ATAddress) -> Option<Route> {
    if m.contains_key(destination) {
        match m[destination] {
            Entry::Route(r) => Some(r),
            _ => None,
        }
    } else {
        None
    }
}

/// `add_route` installs a route with sequence number `sequence` to `destination`:
/// never for the node itself, and over a live route only when strictly newer.
pub open spec fn accepts_route(
    m: Map<ATAddress, Entry>,
    own_address: ATAddress,
    destination: ATAddress,
    sequence: u16,
) -> bool {
    &&& destination != own_address
    &&& match live_route(m, destination) {
        Some(r) => newer(sequence, r.destination_sequence),
        None => true,
    }
}

/// `remove_route` invalidates the entry of `destination`: a live route through
/// `next_hop`, to another node than the owner.
pub open spec fn removes_route(
    m: Map<ATAddress, Entry>,
    own_address: ATAddress,
    destination: ATAddress,
    next_hop: ATAddress,
) -> bool {
    &&& destination != own_address
    &&& match live_route(m, destination) {
        Some(route) => route.next_hop == next_hop,
        None => false,
    }
}

/// The entry is a live route to a neighbour: a destination reached in one hop,
/// other than the node itself.
pub open spec fn is_neighbor_entry(e: (ATAddress, Entry), own_address: ATAddress) -> bool {
    e.1 is Route && e.1->Route_0.next_hop == e.0 && e.0 != own_address
}

/// The routes to neighbours among `entries`, in table order.
pub open spec fn neighbor_routes(entries: Seq<(ATAddress, Entry)>, own_address: ATAddress) -> Seq<
    Route,
>
    decreases entries.len(),
{
    if entries.len() == 0 {
        Seq::empty()
    } else {
        let before = neighbor_routes(entries.drop_last(), own_address);
        if is_neighbor_entry(entries.last(), own_address) {
            before.push(entries.last().1->Route_0)
        } else {
            before
        }
    }
}

/// The entry is a live route whose first hop is `next_hop`.
pub open spec fn is_route_via(e: (ATAddress, Entry), next_hop: ATAddress) -> bool {
    e.1 is Route && e.1->Route_0.next_hop == next_hop
}

/// The destinations and live routes among `entries` whose first hop is `next_hop`,
/// in table order.
pub open spec fn routes_via(entries: Seq<(ATAddress, Entry)>, next_hop: ATAddress) -> Seq<
    (ATAddress, Route),
>
    decreases entries.len(),
{
    if entries.len() == 0 {
        Seq::empty()
    } else {
        let before = routes_via(entries.drop_last(), next_hop);
        if is_route_via(entries.last(), next_hop) {
            before.push((entries.last().0, entries.last().1->Route_0))
        } else {
            before
        }
    }
}

/// Some entry is a live route to a neighbour, and that route is `route`.
pub open spec fn has_neighbor_route(
    entries: Seq<(ATAddress, Entry)>,
    own_address: ATAddress,
    route: Route,
) -> bool {
    exists|i: int|
        0 <= i < entries.len() && is_neighbor_entry(#[trigger] entries[i], own_address)
            && entries[i].1 == Entry::Route(route)
}

/// `neighbor_routes` lists exactly the live routes of the entries whose destination
/// is their own next hop and not the owner.
pub proof fn lemma_neighbor_routes(entries: Seq<(ATAddress, Entry)>, own_address: ATAddress)
    ensures
        forall|k: int|
            0 <= k < neighbor_routes(entries, own_address).len() ==> has_neighbor_route(
                entries,
                own_address,
                #[trigger] neighbor_routes(entries, own_address)[k],
            ),
        forall|i: int|
            0 <= i < entries.len() && is_neighbor_entry(#[trigger] entries[i], own_address)
                ==> neighbor_routes(entries, own_address).contains(entries[i].1->Route_0),
    decreases entries.len(),
{
    if entries.len() > 0 {
        let before = entries.drop_last();
        lemma_neighbor_routes(before, own_address);
        let n = neighbor_routes(entries, own_address);
        let nb = neighbor_routes(before, own_address);
        assert forall|k: int| 0 <= k < n.len() implies has_neighbor_route(
            entries,
            own_address,
            #[trigger] n[k],
        ) by {
            if k < nb.len() {
                assert(nb[k] == n[k]);
                assert(has_neighbor_route(before, own_address, nb[k]));
                let i = choose|i: int|
                    0 <= i < before.len() && is_neighbor_entry(#[trigger] before[i], own_address)
                        && before[i].1 == Entry::Route(nb[k]);
                assert(entries[i] == before[i]);
            } else {
                assert(entries[entries.len() - 1] == entries.last());
            }
        }
        assert forall|i: int|
            0 <= i < entries.len() && is_neighbor_entry(#[trigger] entries[i], own_address)
                implies n.contains(entries[i].1->Route_0) by {
            if i < entries.len() - 1 {
                assert(before[i] == entries[i]);
                let k = choose|k: int| 0 <= k < nb.len() && nb[k] == before[i].1->Route_0;
                assert(n[k] == nb[k]);
            } else {
                assert(n[n.len() - 1] == entries.last().1->Route_0);
            }
        }
    }
}

/// Routes per destination. The node's own address always maps to the route
/// `{ sequence 0, next hop itself, 0 hops }` that the table was made with.
pub struct RoutingTable {
    entries: Vec<(ATAddress, Entry)>,
    own_address: ATAddress,
}

impl View for RoutingTable {
    type V = Seq<(ATAddress, Entry)>;

    /// The entries in the order in which their destinations were first added.
    closed spec fn view(&self) -> Seq<(ATAddress, Entry)> {
        self.entries@
    }
}

impl RoutingTable {
    /// The address of the node that owns the table.
    pub closed spec fn own_address(&self) -> ATAddress {
        self.own_address
    }

    /// The table as a map from destination to entry.
    pub open spec fn map(&self) -> Map<ATAddress, Entry> {
        entries_map(self@)
    }

    /// The table's invariant: destinations are unique and the own address maps to
    /// the node's route to itself.
    pub open spec fn wf(&self) -> bool {
        &&& unique_destinations(self@)
        &&& self.map().contains_key(self.own_address())
        &&& self.map()[self.own_address()] matches Entry::Route(r) && r.destination_sequence == 0
            && r.next_hop == self.own_address() && r.hop_count == 0
    }

    proof fn lemma_map_at(entries: Seq<(ATAddress, Entry)>, i: int)
        requires
            unique_destinations(entries),
            0 <= i < entries.len(),
        ensures
            entries_map(entries).contains_key(entries[i].0),
            entries_map(entries)[entries[i].0] == entries[i].1,
    {
        let d = entries[i].0;
        assert(exists|k: int| 0 <= k < entries.len() && #[trigger] entries[k].0 == d);
        let k = choose|k: int| 0 <= k < entries.len() && #[trigger] entries[k].0 == d;
        assert(k == i);
    }

    proof fn lemma_map_update(entries: Seq<(ATAddress, Entry)>, i: int, e: Entry)
        requires
            unique_destinations(entries),
            0 <= i < entries.len(),
        ensures
            unique_destinations(entries.update(i, (entries[i].0, e))),
            entries_map(entries.update(i, (entries[i].0, e))) == entries_map(entries).insert(
                entries[i].0,
                e,
            ),
    {
        let new_entries = entries.update(i, (entries[i].0, e));
        let d = entries[i].0;
        assert forall|a: int, b: int|
            0 <= a < new_entries.len() && 0 <= b < new_entries.len() && a != b implies #[trigger] new_entries[a].0
            != #[trigger] new_entries[b].0 by {
            assert(entries[a].0 != entries[b].0);
        }
        let m1 = entries_map(new_entries);
        let m2 = entries_map(entries).insert(d, e);
        assert forall|x: ATAddress| m1.contains_key(x) <==> m2.contains_key(x) by {
            if m2.contains_key(x) && x != d {
                let k = choose|k: int| 0 <= k < entries.len() && #[trigger] entries[k].0 == x;
                assert(new_entries[k].0 == x);
            }
            if m1.contains_key(x) {
                let k = choose|k: int| 0 <= k < new_entries.len() && #[trigger] new_entries[k].0 == x;
                assert(entries[k].0 == x);
            }
            if x == d {
                assert(new_entries[i].0 == x);
            }
        }
        assert forall|x: ATAddress| #[trigger] m1.contains_key(x) implies m1[x] == m2[x] by {
            let k = choose|k: int| 0 <= k < new_entries.len() && #[trigger] new_entries[k].0 == x;
            Self::lemma_map_at(new_entries, k);
            if k != i {
                Self::lemma_map_at(entries, k);
            }
        }
        assert(m1 =~= m2);
    }

    proof fn lemma_map_push(entries: Seq<(ATAddress, Entry)>, d: ATAddress, e: Entry)
        requires
            unique_destinations(entries),
            !entries_map(entries).contains_key(d),
        ensures
            unique_destinations(entries.push((d, e))),
            entries_map(entries.push((d, e))) == entries_map(entries).insert(d, e),
    {
        let new_entries = entries.push((d, e));
        assert forall|a: int, b: int|
            0 <= a < new_entries.len() && 0 <= b < new_entries.len() && a != b implies #[trigger] new_entries[a].0
            != #[trigger] new_entries[b].0 by {
            if a < entries.len() && b < entries.len() {
                assert(entries[a].0 != entries[b].0);
            } else if a < entries.len() {
                assert(entries[a].0 == new_entries[a].0);
            } else {
                assert(entries[b].0 == new_entries[b].0);
            }
        }
        let m1 = entries_map(new_entries);
        let m2 = entries_map(entries).insert(d, e);
        assert forall|x: ATAddress| m1.contains_key(x) <==> m2.contains_key(x) by {
            if m2.contains_key(x) && x != d {
                let k = choose|k: int| 0 <= k < entries.len() && #[trigger] entries[k].0 == x;
                assert(new_entries[k].0 == x);
            }
            if m1.contains_key(x) && x != d {
                let k = choose|k: int| 0 <= k < new_entries.len() && #[trigger] new_entries[k].0 == x;
                assert(entries[k].0 == x);
            }
            if x == d {
                assert(new_entries[entries.len() as int].0 == x);
            }
        }
        assert forall|x: ATAddress| #[trigger] m1.contains_key(x) implies m1[x] == m2[x] by {
            let k = choose|k: int| 0 <= k < new_entries.len() && #[trigger] new_entries[k].0 == x;
            Self::lemma_map_at(new_entries, k);
            if k < entries.len() {
                Self::lemma_map_at(entries, k);
            }
        }
        assert(m1 =~= m2);
    }

    /// The index of `destination`'s entry, if it has one.
    fn find(&self, destination: ATAddress) -> (r: Option<usize>)
        requires
            unique_destinations(self@),
        ensures
            match r {
                Some(i) => i < self@.len() && self@[i as int].0 == destination
                    && self.map().contains_key(destination) && self.map()[destination]
                    == self@[i as int].1,
                None => !self.map().contains_key(destination),
            },
    {
        let mut i: usize = 0;
        while i < self.entries.len()
            invariant
                i <= self@.len(),
                self@ == self.entries@,
                unique_destinations(self@),
                forall|k: int| 0 <= k < i ==> #[trigger] self@[k].0 != destination,
            decreases self@.len() - i,
        {
            if self.entries[i].0 == destination {
                proof {
                    Self::lemma_map_at(self@, i as int);
                }
                return Some(i);
            }
            i = i + 1;
        }
        assert(!self.map().contains_key(destination)) by {
            if self.map().contains_key(destination) {
                let k = choose|k: int| 0 <= k < self@.len() && #[trigger] self@[k].0 == destination;
                assert(self@[k].0 != destination);
            }
        }
        None
    }

    /// A table that knows only the node itself, at hop count 0 and sequence 0.
    pub fn new(own_address: ATAddress, now: u64) -> (r: RoutingTable)
        ensures
            r.wf(),
            r.own_address() == own_address,
            r.map() == Map::<ATAddress, Entry>::empty().insert(
                own_address,
                Entry::Route(
                    Route {
                        destination_sequence: 0,
                        next_hop: own_address,
                        hop_count: 0,
                        last_seen: now,
                    },
                ),
            ),
    {
        let route = Route { destination_sequence: 0, next_hop: own_address, hop_count: 0, last_seen: now };
        let mut entries: Vec<(ATAddress, Entry)> = Vec::new();
        entries.push((own_address, Entry::Route(route)));
        let r = RoutingTable { entries, own_address };
        proof {
            assert(Seq::<(ATAddress, Entry)>::empty().push((own_address, Entry::Route(route)))
                =~= r@);
            Self::lemma_map_push(Seq::empty(), own_address, Entry::Route(route));
            assert(entries_map(Seq::empty()) =~= Map::empty());
        }
        r
    }

    /// The live route to `destination`, if there is one.
    pub fn get_route(&self, destination: ATAddress) -> (r: Option<Route>)
        requires
            self.wf(),
        ensures
            r == live_route(self.map(), destination),
    {
        match self.find(destination) {
            Some(i) => match self.entries[i].1 {
                Entry::Route(route) => Some(route),
                Entry::UnreachableDestination { .. } => None,
            },
            None => None,
        }
    }

    /// The last sequence number known for `destination`, live or not.
    pub fn get_last_known_sequence(&self, destination: ATAddress) -> (r: Option<u16>)
        requires
            self.wf(),
        ensures
            r == (if self.map().contains_key(destination) {
                Some(self.map()[destination].sequence())
            } else {
                None
            }),
    {
        match self.find(destination) {
            Some(i) => match self.entries[i].1 {
                Entry::Route(route) => Some(route.destination_sequence),
                Entry::UnreachableDestination { destination_sequence } => Some(
                    destination_sequence,
                ),
            },
            None => None,
        }
    }

    /// Installs the route `{ destination_sequence, next_hop, hop_count, now }` to
    /// `destination`, unless `destination` is the node itself or the table holds a
    /// live route to it whose sequence number is not older. Returns the new route
    /// when it differs from the previous one in more than `last_seen`.
    pub fn add_route(
        &mut self,
        destination: ATAddress,
        destination_sequence: u16,
        next_hop: ATAddress,
        hop_count: u8,
        now: u64,
    ) -> (r: Option<Route>)
        requires
            old(self).wf(),
        ensures
            final(self).wf(),
            final(self).own_address() == old(self).own_address(),
            ({
                let new_route = Route { destination_sequence, next_hop, hop_count, last_seen: now };
                if accepts_route(old(self).map(), old(self).own_address(), destination, destination_sequence) {
                    &&& final(self).map() == old(self).map().insert(destination, Entry::Route(new_route))
                    &&& r == Some(new_route)
                } else {
                    &&& final(self).map() == old(self).map()
                    &&& r is None
                }
            }),
    {
        if destination == self.own_address {
            return None;
        }
        let new_route = Route { destination_sequence, next_hop, hop_count, last_seen: now };
        match self.find(destination) {
            Some(i) => {
                let previous = self.entries[i].1;
                if let Entry::Route(route) = previous {
                    if !sequence_number_newer(destination_sequence, route.destination_sequence) {
                        return None;
                    }
                }
                proof {
                    Self::lemma_map_update(self@, i as int, Entry::Route(new_route));
                    assert(self.entries@[i as int].0 == destination);
                }
                self.entries.set(i, (destination, Entry::Route(new_route)));
                if let Entry::Route(route) = previous {
                    if route.destination_sequence == destination_sequence && route.next_hop
                        == next_hop && route.hop_count == hop_count {
                        // only `last_seen` moved
                        return None;
                    }
                }
                Some(new_route)
            },
            None => {
                proof {
                    Self::lemma_map_push(self@, destination, Entry::Route(new_route));
                }
                self.entries.push((destination, Entry::Route(new_route)));
                Some(new_route)
            },
        }
    }

    /// Marks the route to `destination` unreachable, keeping its sequence number,
    /// if it is a live route through `next_hop` (and not the node's own). Returns
    /// whether the table changed.
    pub fn remove_route(&mut self, destination: ATAddress, next_hop: ATAddress) -> (r: bool)
        requires
            old(self).wf(),
        ensures
            final(self).wf(),
            final(self).own_address() == old(self).own_address(),
            r == removes_route(old(self).map(), old(self).own_address(), destination, next_hop),
            r ==> final(self).map() == old(self).map().insert(
                destination,
                Entry::UnreachableDestination {
                    destination_sequence: old(self).map()[destination].sequence(),
                },
            ),
            !r ==> final(self).map() == old(self).map(),
    {
        if destination == self.own_address {
            return false;
        }
        match self.find(destination) {
            Some(i) => match self.entries[i].1 {
                Entry::Route(route) => {
                    if route.next_hop != next_hop {
                        return false;
                    }
                    let unreachable = Entry::UnreachableDestination {
                        destination_sequence: route.destination_sequence,
                    };
                    proof {
                        Self::lemma_map_update(self@, i as int, unreachable);
                    }
                    self.entries.set(i, (destination, unreachable));
                    true
                },
                Entry::UnreachableDestination { .. } => false,
            },
            None => false,
        }
    }

    /// The live routes to neighbours, in table order.
    pub fn neighbors(&self) -> (r: Vec<Route>)
        requires
            self.wf(),
        ensures
            r@ == neighbor_routes(self@, self.own_address()),
    {
        let mut result: Vec<Route> = Vec::new();
        let mut i: usize = 0;
        while i < self.entries.len()
            invariant
                i <= self@.len(),
                self@ == self.entries@,
                result@ == neighbor_routes(self@.subrange(0, i as int), self.own_address()),
            decreases self@.len() - i,
        {
            let (destination, entry) = self.entries[i];
            assert(self@.subrange(0, i + 1).drop_last() =~= self@.subrange(0, i as int));
            if let Entry::Route(route) = entry {
                if route.next_hop == destination && destination != self.own_address {
                    result.push(route);
                }
            }
            i = i + 1;
        }
        assert(self@.subrange(0, i as int) =~= self@);
        result
    }

    /// The destinations and live routes whose first hop is `next_hop`, in table order.
    pub fn routes_with_next_hop(&self, next_hop: ATAddress) -> (r: Vec<(ATAddress, Route)>)
        requires
            self.wf(),
        ensures
            r@ == routes_via(self@, next_hop),
    {
        let mut result: Vec<(ATAddress, Route)> = Vec::new();
        let mut i: usize = 0;
        while i < self.entries.len()
            invariant
                i <= self@.len(),
                self@ == self.entries@,
                result@ == routes_via(self@.subrange(0, i as int), next_hop),
            decreases self@.len() - i,
        {
            let (destination, entry) = self.entries[i];
            assert(self@.subrange(0, i + 1).drop_last() =~= self@.subrange(0, i as int));
            if let Entry::Route(route) = entry {
                if route.next_hop == next_hop {
                    result.push((destination, route));
                }
            }
            i = i + 1;
        }
        assert(self@.subrange(0, i as int) =~= self@);
        result
    }
}

} // verus!
