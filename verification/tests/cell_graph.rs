use grand_pattern_mono::{CellGraph, Murmur};

// gossip spreads one number
#[test]
fn test_gossip() {
    let mut g: CellGraph<f64> = CellGraph::new(120.0);
    g.add_room(5.0, 5);
    g.add_room(15.0, 5);
    let murmurs = g.gossip(3);
    assert_eq!(murmurs.len(), 2);
    assert!((murmurs[0].vibe - 5.0).abs() < 1e-10);
    assert!((murmurs[1].vibe - 15.0).abs() < 1e-10);
}

// tick increments correctly: each tick is handed what the floating-point
// layer computes for a room with vibe 5.0 (timestamp, surprise, weight).
#[test]
fn test_tick_increments() {
    let mut g: CellGraph<f64> = CellGraph::new(120.0);
    g.add_room(5.0, 5);
    assert_eq!(g.tick_count, 0);
    g.tick(0.0, &vec![5.0], &vec![1.0]);
    assert_eq!(g.tick_count, 1);
    g.tick(0.5, &vec![0.0], &vec![0.5]);
    assert_eq!(g.tick_count, 2);
}

#[test]
fn new_graph_is_empty() {
    let g = CellGraph::new(60u64);
    assert!(g.rooms.is_empty());
    assert!(g.edges.is_empty());
    assert_eq!(g.tick_count, 0);
    assert_eq!(g.bpm, 60);
    assert!(g.gossip(3).is_empty());
}

#[test]
fn add_room_returns_the_next_index() {
    let mut g = CellGraph::new(120.0);
    assert_eq!(g.add_room(3.0, 5), 0);
    assert_eq!(g.add_room(7.0, 0), 1);
    assert_eq!(g.rooms.len(), 2);
    assert_eq!(g.rooms[1].id, 1);
    assert_eq!(g.rooms[1].vibe, 7.0);
    assert_eq!(g.rooms[1].jepa.window(), 1);
}

#[test]
fn add_edge_appends() {
    let mut g = CellGraph::new(1i64);
    g.add_edge(0, 1, 5);
    g.add_edge(9, 2, 6);
    assert_eq!(g.edges, vec![(0, 1, 5), (9, 2, 6)]);
}

#[test]
fn remove_room_drops_room_and_its_edges_without_renumbering() {
    let mut g = CellGraph::new(120.0);
    let r0 = g.add_room(3.0, 5);
    let r1 = g.add_room(7.0, 5);
    let r2 = g.add_room(10.0, 5);
    g.add_edge(r0, r1, 0.5);
    g.add_edge(r1, r2, 0.5);
    g.add_edge(r2, r0, 0.25);
    g.add_edge(r1, r1, 1.0);
    g.remove_room(r1);
    let ids: Vec<usize> = g.rooms.iter().map(|r| r.id).collect();
    assert_eq!(ids, vec![0, 2]);
    let vibes: Vec<f64> = g.rooms.iter().map(|r| r.vibe).collect();
    assert_eq!(vibes, vec![3.0, 10.0]);
    assert_eq!(g.edges, vec![(2, 0, 0.25)]);
    // removing it again changes nothing
    g.remove_room(r1);
    assert_eq!(g.rooms.len(), 2);
    assert_eq!(g.edges, vec![(2, 0, 0.25)]);
}

#[test]
fn remove_undoes_add_of_a_fresh_room() {
    let mut g = CellGraph::new(120.0);
    g.add_room(1.0, 5);
    g.add_room(2.0, 5);
    g.add_edge(0, 1, 1.0);
    let id = g.add_room(4.0, 5);
    g.remove_room(id);
    let vibes: Vec<f64> = g.rooms.iter().map(|r| r.vibe).collect();
    assert_eq!(vibes, vec![1.0, 2.0]);
    assert_eq!(g.edges, vec![(0, 1, 1.0)]);
}

#[test]
fn tick_feeds_each_room_its_own_vibe() {
    let mut g = CellGraph::new(120.0);
    g.add_room(1.0, 5);
    g.add_room(100.0, 5);
    g.tick(0.0, &vec![1.0, 100.0], &vec![1.0, 1.0]);
    assert_eq!(g.rooms[0].jepa.readings(), &vec![(0.0, 1.0)]);
    assert_eq!(g.rooms[1].jepa.readings(), &vec![(0.0, 100.0)]);
    assert_eq!(g.rooms[0].last_surprise, 1.0);
    assert_eq!(g.rooms[1].last_surprise, 100.0);
}

#[test]
fn tick_on_empty_graph_only_counts() {
    let mut g: CellGraph<f64> = CellGraph::new(120.0);
    g.tick(0.0, &vec![], &vec![]);
    assert_eq!(g.tick_count, 1);
    assert!(g.rooms.is_empty());
}

#[test]
fn gossip_mirrors_rooms() {
    let mut g = CellGraph::new(120.0);
    g.add_room(5.0, 5);
    g.add_room(15.0, 5);
    g.tick(0.0, &vec![5.0, 15.0], &vec![1.0, 1.0]);
    let murmurs: Vec<Murmur<f64>> = g.gossip(4);
    assert_eq!(murmurs[1].source, 1);
    assert_eq!(murmurs[1].vibe, 15.0);
    assert_eq!(murmurs[1].surprise, 15.0);
    assert_eq!(murmurs[1].tick, 1);
    assert_eq!(murmurs[1].ttl, 4);
}

fn sum_of_vibes(g: &CellGraph<f64>) -> f64 {
    g.rooms.iter().map(|r| r.vibe).sum()
}

// removing a room preserves conservation (the total is summed here)
#[test]
fn test_remove_preserves_conservation() {
    let mut g: CellGraph<f64> = CellGraph::new(120.0);
    let _r0 = g.add_room(3.0, 5);
    let r1 = g.add_room(7.0, 5);
    let _r2 = g.add_room(10.0, 5);
    let before = sum_of_vibes(&g);
    g.remove_room(r1);
    // Total should be reduced by room 1's vibe
    assert!((sum_of_vibes(&g) - (before - 7.0)).abs() < 1e-10);
}

// adding a room adjusts total mass (the total is summed here)
#[test]
fn test_add_adjusts_mass() {
    let mut g: CellGraph<f64> = CellGraph::new(120.0);
    g.add_room(3.0, 5);
    let before = sum_of_vibes(&g);
    g.add_room(7.0, 5);
    assert!((sum_of_vibes(&g) - before - 7.0).abs() < 1e-10);
}

// empty graph handles gracefully: a tick of no rooms takes no surprises or
// weights; diffusion, learning and the fleet averages are floating-point
// work outside this crate
#[test]
fn test_empty_graph() {
    let mut g: CellGraph<f64> = CellGraph::new(120.0);
    g.tick(0.0, &vec![], &vec![]);
    let murmurs = g.gossip(3);
    assert!(murmurs.is_empty());
}

#[test]
fn fresh_rooms_gossip_zero_surprise() {
    let mut g: CellGraph<f64> = CellGraph::new(120.0);
    g.add_room(5.0, 5);
    g.add_room(15.0, 5);
    let m = g.gossip(3);
    assert_eq!(m[0].surprise, 0.0);
    assert_eq!(m[1].surprise, 0.0);
    assert_eq!(m[1].source, 1);
    assert_eq!(m[1].tick, 0);
    assert_eq!(m[1].ttl, 3);
    assert_eq!(g.rooms[1].last_surprise, 0.0);
}
