use vstd::prelude::*;

use crate::murmur::Murmur;
use crate::room::Room;

verus! {

/// The rooms whose id is not `id`, in their order.
pub open spec fn rooms_without<T>(rooms: Seq<Room<T>>, id: usize) -> Seq<Room<T>> {
    rooms.filter(|room: Room<T>| room.id != id)
}

/// The edges that neither start nor end at `id`, in their order.
pub open spec fn edges_without<T>(edges: Seq<(usize, usize, T)>, id: usize) -> Seq<
    (usize, usize, T),
> {
    edges.filter(|edge: (usize, usize, T)| edge.0 != id && edge.1 != id)
}

/// The rooms connected by weighted edges `(from, to, weight)`, with a tick
/// counter and a tempo.
#[derive(Debug, Clone)]
pub struct CellGraph<T> {
    pub rooms: Vec<Room<T>>,
    pub edges: Vec<(usize, usize, T)>,
    pub tick_count: u64,
    pub bpm: T,
}

impl<T> CellGraph<T> {
    /// A graph with no rooms, no edges, a tick count of zero and the given tempo.
    pub fn new(bpm: T) -> (graph: CellGraph<T>)
        ensures
            graph.rooms@.len() == 0,
            graph.edges@.len() == 0,
            graph.tick_count == 0,
            graph.bpm == bpm,
    {
        CellGraph { rooms: Vec::new(), edges: Vec::new(), tick_count: 0, bpm }
    }

    /// Adds the edge `(from, to, weight)` at the end of the edges.
    pub fn add_edge(&mut self, from: usize, to: usize, weight: T)
        ensures
            final(self).edges@ == old(self).edges@.push((from, to, weight)),
            final(self).rooms@ == old(self).rooms@,
            final(self).tick_count == old(self).tick_count,
            final(self).bpm == old(self).bpm,
    {
        self.edges.push((from, to, weight));
    }

    /// Removes every room whose id is `id` and every edge that starts or ends
    /// at `id`; the others keep their order, and no room is renumbered.
    pub fn remove_room(&mut self, id: usize)
        ensures
            final(self).rooms@ == rooms_without(old(self).rooms@, id),
            final(self).edges@ == edges_without(old(self).edges@, id),
            final(self).tick_count == old(self).tick_count,
            final(self).bpm == old(self).bpm,
    {
        let mut rooms: Vec<Room<T>> = Vec::new();
        std::mem::swap(&mut rooms, &mut self.rooms);
        let ghost all_rooms = rooms@;
        let mut kept_rooms: Vec<Room<T>> = Vec::new();
        for room in it: rooms.into_iter()
            invariant
                it.seq() == all_rooms,
                kept_rooms@ == rooms_without(all_rooms.take(it.index()), id),
        {
            proof {
                reveal_with_fuel(Seq::<_>::filter, 1);
                assert(all_rooms.take(it.index() + 1).drop_last() =~= all_rooms.take(it.index()));
            }
            if room.id != id {
                kept_rooms.push(room);
            }
        }
        proof {
            assert(all_rooms.take(all_rooms.len() as int) =~= all_rooms);
        }
        self.rooms = kept_rooms;

        let mut edges: Vec<(usize, usize, T)> = Vec::new();
        std::mem::swap(&mut edges, &mut self.edges);
        let ghost all_edges = edges@;
        let mut kept_edges: Vec<(usize, usize, T)> = Vec::new();
        for edge in it: edges.into_iter()
            invariant
                it.seq() == all_edges,
                kept_edges@ == edges_without(all_edges.take(it.index()), id),
        {
            proof {
                reveal_with_fuel(Seq::<_>::filter, 1);
                assert(all_edges.take(it.index() + 1).drop_last() =~= all_edges.take(it.index()));
            }
            if edge.0 != id && edge.1 != id {
                kept_edges.push(edge);
            }
        }
        proof {
            assert(all_edges.take(all_edges.len() as int) =~= all_edges);
        }
        self.edges = kept_edges;
    }
}

impl<T: Default> CellGraph<T> {
    /// Adds a room with the given vibe and predictor window at the end of the
    /// rooms; its id is the number of rooms before the call, which is
    /// returned.
    pub fn add_room(&mut self, vibe: T, window: usize) -> (id: usize)
        ensures
            id == old(self).rooms@.len(),
            final(self).rooms@.len() == old(self).rooms@.len() + 1,
            final(self).rooms@.take(id as int) == old(self).rooms@,
            final(self).rooms@[id as int].id == id,
            final(self).rooms@[id as int].vibe == vibe,
            final(self).rooms@[id as int].jepa@.readings.len() == 0,
            final(self).rooms@[id as int].jepa@.weights.len() == 0,
            final(self).rooms@[id as int].jepa@.window == (if window >= 1 { window } else { 1 }),
            call_ensures(T::default, (), final(self).rooms@[id as int].last_surprise),
            final(self).edges@ == old(self).edges@,
            final(self).tick_count == old(self).tick_count,
            final(self).bpm == old(self).bpm,
    {
        let id = self.rooms.len();
        self.rooms.push(Room::new(id, vibe, window));
        proof {
            assert(self.rooms@.take(id as int) =~= old(self).rooms@);
        }
        id
    }
}

impl<T: Copy> CellGraph<T> {
    /// One tick of the graph: room `i` ticks at `timestamp` with
    /// `surprises[i]` and `weights[i]`, and the tick count goes up by one.
    pub fn tick(&mut self, timestamp: T, surprises: &Vec<T>, weights: &Vec<T>)
        requires
            old(self).tick_count < u64::MAX,
            surprises@.len() == old(self).rooms@.len(),
            weights@.len() == old(self).rooms@.len(),
        ensures
            final(self).tick_count == old(self).tick_count + 1,
            final(self).rooms@.len() == old(self).rooms@.len(),
            forall|i: int|
                0 <= i < old(self).rooms@.len() ==> {
                    let before = #[trigger] old(self).rooms@[i];
                    let after = final(self).rooms@[i];
                    &&& after.id == before.id
                    &&& after.vibe == before.vibe
                    &&& after.last_surprise == surprises@[i]
                    &&& after.jepa@ == before.jepa@.after_read((timestamp, before.vibe), weights@[i])
                },
            final(self).edges@ == old(self).edges@,
            final(self).bpm == old(self).bpm,
    {
        let mut rooms: Vec<Room<T>> = Vec::new();
        std::mem::swap(&mut rooms, &mut self.rooms);
        let ghost all_rooms = rooms@;
        let mut ticked: Vec<Room<T>> = Vec::new();
        for room in it: rooms.into_iter()
            invariant
                it.seq() == all_rooms,
                all_rooms.len() == surprises@.len(),
                all_rooms.len() == weights@.len(),
                ticked@.len() == it.index(),
                forall|i: int|
                    0 <= i < it.index() ==> {
                        let before = #[trigger] all_rooms[i];
                        let after = ticked@[i];
                        &&& after.id == before.id
                        &&& after.vibe == before.vibe
                        &&& after.last_surprise == surprises@[i]
                        &&& after.jepa@ == before.jepa@.after_read(
                            (timestamp, before.vibe),
                            weights@[i],
                        )
                    },
        {
            let i = ticked.len();
            let mut room = room;
            room.tick(timestamp, surprises[i], weights[i]);
            ticked.push(room);
        }
        self.rooms = ticked;
        self.tick_count = self.tick_count + 1;
    }

    /// One murmur per room, in the order of the rooms: its source is the
    /// room's id, it carries the room's vibe and last surprise, the current
    /// tick count and the given time-to-live.
    pub fn gossip(&self, ttl: u32) -> (murmurs: Vec<Murmur<T>>)
        ensures
            murmurs@.len() == self.rooms@.len(),
            forall|i: int|
                0 <= i < self.rooms@.len() ==> #[trigger] murmurs@[i] == (Murmur {
                    source: self.rooms@[i].id,
                    vibe: self.rooms@[i].vibe,
                    surprise: self.rooms@[i].last_surprise,
                    tick: self.tick_count,
                    ttl: ttl,
                }),
    {
        let mut murmurs: Vec<Murmur<T>> = Vec::new();
        let n = self.rooms.len();
        for i in 0..n
            invariant
                n == self.rooms@.len(),
                murmurs@.len() == i,
                forall|j: int|
                    0 <= j < i ==> #[trigger] murmurs@[j] == (Murmur {
                        source: self.rooms@[j].id,
                        vibe: self.rooms@[j].vibe,
                        surprise: self.rooms@[j].last_surprise,
                        tick: self.tick_count,
                        ttl: ttl,
                    }),
        {
            let room = &self.rooms[i];
            murmurs.push(
                Murmur {
                    source: room.id,
                    vibe: room.vibe,
                    surprise: room.last_surprise,
                    tick: self.tick_count,
                    ttl,
                },
            );
        }
        murmurs
    }
}

/// Removing an id from the rooms, one room at a time: nothing comes of no
/// rooms; a room with another id stays, after the rooms kept before it; a
/// room with that id goes. So the rooms kept are the rooms with other ids,
/// in their order.
pub proof fn lemma_rooms_without_step<T>(rooms: Seq<Room<T>>, room: Room<T>, id: usize)
    ensures
        rooms_without(Seq::<Room<T>>::empty(), id) == Seq::<Room<T>>::empty(),
        room.id != id ==> rooms_without(rooms.push(room), id) == rooms_without(rooms, id).push(
            room,
        ),
        room.id == id ==> rooms_without(rooms.push(room), id) == rooms_without(rooms, id),
{
    reveal_with_fuel(Seq::<_>::filter, 1);
    assert(rooms.push(room).drop_last() =~= rooms);
}

/// Removing an id from the edges, one edge at a time: nothing comes of no
/// edges; an edge away from the id stays, after the edges kept before it;
/// an edge that starts or ends at the id goes.
pub proof fn lemma_edges_without_step<T>(
    edges: Seq<(usize, usize, T)>,
    edge: (usize, usize, T),
    id: usize,
)
    ensures
        edges_without(Seq::<(usize, usize, T)>::empty(), id) == Seq::<(usize, usize, T)>::empty(),
        edge.0 != id && edge.1 != id ==> edges_without(edges.push(edge), id) == edges_without(
            edges,
            id,
        ).push(edge),
        edge.0 == id || edge.1 == id ==> edges_without(edges.push(edge), id) == edges_without(
            edges,
            id,
        ),
{
    reveal_with_fuel(Seq::<_>::filter, 1);
    assert(edges.push(edge).drop_last() =~= edges);
}

/// After a room is removed, no room with its id and no edge at it is left;
/// every room with another id, and every edge away from it, is still there,
/// and nothing else is.
pub proof fn lemma_remove_room_keeps_the_rest<T>(
    rooms: Seq<Room<T>>,
    edges: Seq<(usize, usize, T)>,
    id: usize,
)
    ensures
        forall|i: int|
            0 <= i < rooms_without(rooms, id).len() ==> #[trigger] rooms_without(rooms, id)[i].id
                != id && rooms.contains(rooms_without(rooms, id)[i]),
        forall|i: int|
            0 <= i < rooms.len() && rooms[i].id != id ==> #[trigger] rooms_without(
                rooms,
                id,
            ).contains(rooms[i]),
        forall|i: int|
            0 <= i < edges_without(edges, id).len() ==> {
                let edge = #[trigger] edges_without(edges, id)[i];
                &&& edge.0 != id
                &&& edge.1 != id
                &&& edges.contains(edge)
            },
        forall|i: int|
            0 <= i < edges.len() && edges[i].0 != id && edges[i].1 != id ==> #[trigger] edges_without(
                edges,
                id,
            ).contains(edges[i]),
{
    broadcast use vstd::seq_lib::group_filter_ensures;
    broadcast use vstd::seq::Seq::lemma_filter_contains_rev;

    let kept_rooms = rooms_without(rooms, id);
    let kept_edges = edges_without(edges, id);
    assert forall|i: int| 0 <= i < kept_rooms.len() implies rooms.contains(
        #[trigger] kept_rooms[i],
    ) by {
        assert(kept_rooms.contains(kept_rooms[i]));
    }
    assert forall|i: int| 0 <= i < kept_edges.len() implies edges.contains(
        #[trigger] kept_edges[i],
    ) by {
        assert(kept_edges.contains(kept_edges[i]));
    }
}

/// Removing the same id twice removes nothing more.
pub proof fn lemma_remove_room_twice<T>(
    rooms: Seq<Room<T>>,
    edges: Seq<(usize, usize, T)>,
    id: usize,
)
    ensures
        rooms_without(rooms_without(rooms, id), id) == rooms_without(rooms, id),
        edges_without(edges_without(edges, id), id) == edges_without(edges, id),
    decreases rooms.len() + edges.len(),
{
    reveal_with_fuel(Seq::<_>::filter, 1);
    if rooms.len() > 0 {
        lemma_remove_room_twice(rooms.drop_last(), edges, id);
        let kept = rooms_without(rooms.drop_last(), id);
        if rooms.last().id != id {
            assert(rooms_without(rooms, id) == kept.push(rooms.last()));
            assert(kept.push(rooms.last()).drop_last() =~= kept);
        }
    }
    if edges.len() > 0 {
        lemma_remove_room_twice(rooms, edges.drop_last(), id);
        let kept = edges_without(edges.drop_last(), id);
        let last = edges.last();
        if last.0 != id && last.1 != id {
            assert(edges_without(edges, id) == kept.push(last));
            assert(kept.push(last).drop_last() =~= kept);
        }
    }
}

/// Removing a room undoes adding it, where its id was new: no room had that
/// id before and no edge starts or ends at it.
pub proof fn lemma_remove_undoes_add<T>(
    rooms: Seq<Room<T>>,
    edges: Seq<(usize, usize, T)>,
    room: Room<T>,
)
    requires
        forall|i: int| 0 <= i < rooms.len() ==> #[trigger] rooms[i].id != room.id,
        forall|i: int|
            0 <= i < edges.len() ==> #[trigger] edges[i].0 != room.id && edges[i].1 != room.id,
    ensures
        rooms_without(rooms.push(room), room.id) == rooms,
        edges_without(edges, room.id) == edges,
{
    reveal_with_fuel(Seq::<_>::filter, 1);
    assert(rooms.push(room).drop_last() =~= rooms);
    lemma_nothing_to_remove(rooms, edges, room.id);
}

/// Where no room has the id and no edge is at it, removing it changes nothing.
proof fn lemma_nothing_to_remove<T>(
    rooms: Seq<Room<T>>,
    edges: Seq<(usize, usize, T)>,
    id: usize,
)
    requires
        forall|i: int| 0 <= i < rooms.len() ==> #[trigger] rooms[i].id != id,
        forall|i: int| 0 <= i < edges.len() ==> #[trigger] edges[i].0 != id && edges[i].1 != id,
    ensures
        rooms_without(rooms, id) == rooms,
        edges_without(edges, id) == edges,
    decreases rooms.len() + edges.len(),
{
    reveal_with_fuel(Seq::<_>::filter, 1);
    if rooms.len() > 0 {
        lemma_nothing_to_remove(rooms.drop_last(), edges, id);
        assert(rooms.drop_last().push(rooms.last()) =~= rooms);
    }
    if edges.len() > 0 {
        lemma_nothing_to_remove(rooms, edges.drop_last(), id);
        assert(edges.drop_last().push(edges.last()) =~= edges);
    }
}

} // verus!
