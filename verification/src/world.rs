//! The per-tick world snapshot: every living snake's ordered segment
//! chain and the active food items, assembled once per tick from the
//! flat enumeration of live entities and then shared read-only by all
//! controllers queried that tick.

use vstd::prelude::*;

verus! {

/// A point of the arena grid. The engine simulates on continuous
/// coordinates; the snapshot carries them rounded to this integer grid,
/// which is also the fixed, stable textual form of the wire format.
#[derive(Debug, Copy, Clone, PartialEq, Eq, Structural)]
pub struct Position {
    pub x: i32,
    pub y: i32,
}

/// One body unit of a snake. Index 0 is the head; increasing indices
/// run toward the tail.
#[derive(Debug, Copy, Clone, PartialEq, Eq, Structural)]
pub struct SnakeNode {
    pub seg_id: i32,
    pub pos: Position,
}

/// One entity as the engine layer enumerates it: which player it
/// belongs to, which segment it is, and where it stands this tick.
#[derive(Debug, Copy, Clone, PartialEq, Eq, Structural)]
pub struct SegmentRecord {
    pub player_id: i32,
    pub seg_id: i32,
    pub pos: Position,
}

/// One player's snake in the snapshot: its segments ordered by segment
/// index, head first.
#[derive(Debug, Clone)]
pub struct SnakeBody {
    pub player_id: i32,
    pub body: Vec<SnakeNode>,
}

/// One food item in the snapshot.
#[derive(Debug, Copy, Clone, PartialEq, Eq, Structural)]
pub struct FoodBody {
    pub pos: Position,
}

/// The immutable point-in-time view handed to every controller in one
/// tick: snakes ordered by player identifier, foods in enumeration
/// order.
#[derive(Debug, Clone)]
pub struct SnakeWorld {
    pub snakes: Vec<SnakeBody>,
    pub foods: Vec<FoodBody>,
}

/// Segments strictly ordered by segment index.
pub open spec fn body_sorted(body: Seq<SnakeNode>) -> bool {
    forall|i: int, j: int| 0 <= i < j < body.len() ==> body[i].seg_id < body[j].seg_id
}

/// Snakes strictly ordered by player identifier, each with an ordered
/// body.
pub open spec fn snakes_wf(snakes: Seq<SnakeBody>) -> bool {
    (forall|i: int, j: int|
        0 <= i < j < snakes.len() ==> snakes[i].player_id < snakes[j].player_id) && (forall|i: int|
        0 <= i < snakes.len() ==> body_sorted(#[trigger] snakes[i].body@))
}

impl SnakeWorld {
    /// The snapshot invariant: one snake per player, ordered, with
    /// ordered segments.
    pub open spec fn wf(self) -> bool {
        snakes_wf(self.snakes@)
    }
}

/// No two records name the same segment of the same player.
pub open spec fn records_unique(rs: Seq<SegmentRecord>) -> bool {
    forall|a: int, b: int|
        0 <= a < b < rs.len() ==> !(rs[a].player_id == rs[b].player_id && rs[a].seg_id
            == rs[b].seg_id)
}

/// The record a snapshot node stands for.
pub open spec fn node_record(pid: i32, n: SnakeNode) -> SegmentRecord {
    SegmentRecord { player_id: pid, seg_id: n.seg_id, pos: n.pos }
}

/// Whether the grouped snakes contain the given record as a node of the
/// right player.
pub open spec fn world_has_record(snakes: Seq<SnakeBody>, r: SegmentRecord) -> bool {
    exists|i: int|
        0 <= i < snakes.len() && (#[trigger] snakes[i]).player_id == r.player_id && exists|j: int|
            0 <= j < snakes[i].body@.len() && (#[trigger] snakes[i].body@[j]).seg_id == r.seg_id
                && snakes[i].body@[j].pos == r.pos
}

/// Inserts a node into a body ordered by segment index, keeping the
/// order.
fn insert_node(body: &mut Vec<SnakeNode>, node: SnakeNode)
    requires
        body_sorted(old(body)@),
        forall|j: int| 0 <= j < old(body)@.len() ==> old(body)@[j].seg_id != node.seg_id,
    ensures
        body_sorted(final(body)@),
        final(body)@.len() == old(body)@.len() + 1,
        final(body)@.contains(node),
        forall|j: int| 0 <= j < old(body)@.len() ==> final(body)@.contains(old(body)@[j]),
        forall|j: int|
            0 <= j < final(body)@.len() ==> final(body)@[j] == node || old(body)@.contains(
                final(body)@[j],
            ),
{
    let mut idx: usize = 0;
    while idx < body.len() && body[idx].seg_id < node.seg_id
        invariant
            body_sorted(body@),
            0 <= idx <= body@.len(),
            forall|j: int| 0 <= j < idx ==> body@[j].seg_id < node.seg_id,
        decreases body@.len() - idx,
    {
        idx += 1;
    }
    let ghost pre = body@;
    proof {
        assert(forall|j: int| idx <= j < pre.len() ==> pre[j].seg_id >= pre[idx as int].seg_id
            || j == idx);
        assert forall|j: int| idx <= j < pre.len() implies pre[j].seg_id > node.seg_id by {
            assert(pre[j].seg_id != node.seg_id);
            if j > idx {
                assert(pre[idx as int].seg_id < pre[j].seg_id);
            }
        }
    }
    body.insert(idx, node);
    proof {
        assert(body@ == pre.insert(idx as int, node));
        assert(body@[idx as int] == node);
        assert(forall|j: int| 0 <= j < idx ==> body@[j] == pre[j]);
        assert(forall|j: int| idx < j < body@.len() ==> body@[j] == pre[j - 1]);
        assert forall|i: int, j: int| 0 <= i < j < body@.len() implies body@[i].seg_id
            < body@[j].seg_id by {
        }
        assert forall|j: int| 0 <= j < pre.len() implies body@.contains(pre[j]) by {
            if j < idx {
                assert(body@[j] == pre[j]);
            } else {
                assert(body@[j + 1] == pre[j]);
            }
        }
    }
}

/// Index at which `pid`'s snake stands, or where it belongs.
fn find_snake_slot(snakes: &Vec<SnakeBody>, pid: i32) -> (r: (usize, bool))
    requires
        snakes_wf(snakes@),
    ensures
        r.0 <= snakes@.len(),
        r.1 ==> r.0 < snakes@.len() && snakes@[r.0 as int].player_id == pid,
        forall|i: int| 0 <= i < r.0 ==> snakes@[i].player_id < pid,
        !r.1 ==> forall|i: int| r.0 <= i < snakes@.len() ==> snakes@[i].player_id > pid,
{
    let mut idx: usize = 0;
    while idx < snakes.len() && snakes[idx].player_id < pid
        invariant
            snakes_wf(snakes@),
            0 <= idx <= snakes@.len(),
            forall|i: int| 0 <= i < idx ==> snakes@[i].player_id < pid,
        decreases snakes@.len() - idx,
    {
        idx += 1;
    }
    if idx < snakes.len() && snakes[idx].player_id == pid {
        (idx, true)
    } else {
        proof {
            if idx < snakes@.len() {
                assert forall|i: int| idx <= i < snakes@.len() implies snakes@[i].player_id
                    > pid by {
                    if i > idx {
                        assert(snakes@[idx as int].player_id < snakes@[i].player_id);
                    }
                }
            }
        }
        (idx, false)
    }
}

/// Groups the tick's flat segment enumeration by player and orders each
/// player's segments by segment index, head first: the snake half of
/// the snapshot. The result holds exactly the given records, one snake
/// per player, snakes ordered by player identifier.
pub fn collect_snakes(records: &Vec<SegmentRecord>) -> (snakes: Vec<SnakeBody>)
    requires
        records_unique(records@),
    ensures
        snakes_wf(snakes@),
        forall|k: int| 0 <= k < records@.len() ==> world_has_record(snakes@, #[trigger] records@[k]),
        forall|i: int, j: int|
            0 <= i < snakes@.len() && 0 <= j < snakes@[i].body@.len() ==> records@.contains(
                node_record(snakes@[i].player_id, #[trigger] snakes@[i].body@[j]),
            ),
{
    let mut snakes: Vec<SnakeBody> = Vec::new();
    let mut k: usize = 0;
    while k < records.len()
        invariant
            records_unique(records@),
            0 <= k <= records@.len(),
            snakes_wf(snakes@),
            forall|k2: int|
                0 <= k2 < k ==> world_has_record(snakes@, #[trigger] records@[k2]),
            forall|i: int, j: int|
                0 <= i < snakes@.len() && 0 <= j < snakes@[i].body@.len() ==> exists|k2: int|
                    0 <= k2 < k && records@[k2] == node_record(
                        snakes@[i].player_id,
                        #[trigger] snakes@[i].body@[j],
                    ),
        decreases records@.len() - k,
    {
        let r = records[k];
        let node = SnakeNode { seg_id: r.seg_id, pos: r.pos };
        let ghost pre = snakes@;
        let (idx, found) = find_snake_slot(&snakes, r.player_id);
        if found {
            let mut sb = snakes.remove(idx);
            proof {
                assert(sb == pre[idx as int]);
                assert forall|j: int| 0 <= j < sb.body@.len() implies sb.body@[j].seg_id
                    != node.seg_id by {
                    let k2 = choose|k2: int|
                        0 <= k2 < k && records@[k2] == node_record(
                            pre[idx as int].player_id,
                            pre[idx as int].body@[j],
                        );
                    assert(records@[k2].player_id == r.player_id);
                    assert(records@[k as int] == r);
                }
            }
            insert_node(&mut sb.body, node);
            let ghost sb2 = sb;
            snakes.insert(idx, sb);
            proof {
                assert(snakes@ =~= pre.update(idx as int, sb2));
                assert(forall|i: int| 0 <= i < pre.len() && i != idx ==> snakes@[i] == pre[i]);
                assert(snakes@[idx as int] == sb2);
                assert(sb2.player_id == pre[idx as int].player_id);
                assert forall|k2: int| 0 <= k2 < k + 1 implies world_has_record(
                    snakes@,
                    #[trigger] records@[k2],
                ) by {
                    if k2 == k {
                        assert(snakes@[idx as int].body@.contains(node));
                        let j = choose|j: int|
                            0 <= j < sb2.body@.len() && sb2.body@[j] == node;
                        assert(snakes@[idx as int].player_id == r.player_id);
                        assert(snakes@[idx as int].body@[j].seg_id == r.seg_id);
                    } else {
                        let i0 = choose|i: int|
                            0 <= i < pre.len() && (#[trigger] pre[i]).player_id
                                == records@[k2].player_id && exists|j: int|
                                0 <= j < pre[i].body@.len() && (#[trigger] pre[i].body@[j]).seg_id
                                    == records@[k2].seg_id && pre[i].body@[j].pos
                                    == records@[k2].pos;
                        if i0 != idx {
                            assert(snakes@[i0] == pre[i0]);
                        } else {
                            let j0 = choose|j: int|
                                0 <= j < pre[i0].body@.len() && (#[trigger] pre[i0].body@[j]).seg_id
                                    == records@[k2].seg_id && pre[i0].body@[j].pos
                                    == records@[k2].pos;
                            assert(sb2.body@.contains(pre[idx as int].body@[j0]));
                            let j1 = choose|j: int|
                                0 <= j < sb2.body@.len() && sb2.body@[j] == pre[idx as int].body@[j0];
                            assert(snakes@[idx as int].body@[j1].seg_id == records@[k2].seg_id);
                        }
                    }
                }
                assert forall|i: int, j: int|
                    0 <= i < snakes@.len() && 0 <= j < snakes@[i].body@.len() implies exists|k2: int|
                        0 <= k2 < k + 1 && records@[k2] == node_record(
                            snakes@[i].player_id,
                            #[trigger] snakes@[i].body@[j],
                        ) by {
                    if i == idx {
                        let n = snakes@[i].body@[j];
                        if n == node {
                            assert(records@[k as int] == node_record(snakes@[i].player_id, n));
                        } else {
                            assert(pre[idx as int].body@.contains(n));
                            let j0 = choose|j0: int|
                                0 <= j0 < pre[idx as int].body@.len() && pre[idx as int].body@[j0]
                                    == n;
                            assert(exists|k2: int|
                                0 <= k2 < k && records@[k2] == node_record(
                                    pre[idx as int].player_id,
                                    pre[idx as int].body@[j0],
                                ));
                        }
                    } else {
                        assert(snakes@[i] == pre[i]);
                    }
                }
            }
        } else {
            let mut newbody: Vec<SnakeNode> = Vec::new();
            newbody.push(node);
            let sb = SnakeBody { player_id: r.player_id, body: newbody };
            let ghost sb2 = sb;
            snakes.insert(idx, sb);
            proof {
                assert(snakes@ == pre.insert(idx as int, sb2));
                assert(forall|i: int| 0 <= i < idx ==> snakes@[i] == pre[i]);
                assert(forall|i: int| idx < i < snakes@.len() ==> snakes@[i] == pre[i - 1]);
                assert(snakes@[idx as int] == sb2);
                assert(sb2.body@.len() == 1);
                assert(sb2.body@[0] == node);
                assert(body_sorted(sb2.body@));
                assert forall|i: int, j: int| 0 <= i < j < snakes@.len() implies snakes@[i].player_id
                    < snakes@[j].player_id by {
                }
                assert forall|i: int| 0 <= i < snakes@.len() implies body_sorted(
                    #[trigger] snakes@[i].body@,
                ) by {
                }
                assert forall|k2: int| 0 <= k2 < k + 1 implies world_has_record(
                    snakes@,
                    #[trigger] records@[k2],
                ) by {
                    if k2 == k {
                        assert(snakes@[idx as int].player_id == r.player_id);
                        assert(snakes@[idx as int].body@[0].seg_id == r.seg_id);
                    } else {
                        let i0 = choose|i: int|
                            0 <= i < pre.len() && (#[trigger] pre[i]).player_id
                                == records@[k2].player_id && exists|j: int|
                                0 <= j < pre[i].body@.len() && (#[trigger] pre[i].body@[j]).seg_id
                                    == records@[k2].seg_id && pre[i].body@[j].pos
                                    == records@[k2].pos;
                        if i0 < idx {
                            assert(snakes@[i0] == pre[i0]);
                        } else {
                            assert(snakes@[i0 + 1] == pre[i0]);
                        }
                    }
                }
                assert forall|i: int, j: int|
                    0 <= i < snakes@.len() && 0 <= j < snakes@[i].body@.len() implies exists|k2: int|
                        0 <= k2 < k + 1 && records@[k2] == node_record(
                            snakes@[i].player_id,
                            #[trigger] snakes@[i].body@[j],
                        ) by {
                    if i == idx {
                        assert(snakes@[i].body@[j] == node);
                        assert(records@[k as int] == node_record(snakes@[i].player_id, node));
                    } else if i < idx {
                        assert(snakes@[i] == pre[i]);
                    } else {
                        assert(snakes@[i] == pre[i - 1]);
                    }
                }
            }
        }
        k += 1;
    }
    snakes
}

/// Assembles the whole snapshot for one tick from the engine layer's
/// enumeration of snake segments and food positions.
pub fn build_world(records: &Vec<SegmentRecord>, food_positions: &Vec<Position>) -> (w: SnakeWorld)
    requires
        records_unique(records@),
    ensures
        w.wf(),
        forall|k: int|
            0 <= k < records@.len() ==> world_has_record(w.snakes@, #[trigger] records@[k]),
        forall|i: int, j: int|
            0 <= i < w.snakes@.len() && 0 <= j < w.snakes@[i].body@.len() ==> records@.contains(
                node_record(w.snakes@[i].player_id, #[trigger] w.snakes@[i].body@[j]),
            ),
        w.foods@.map_values(|f: FoodBody| f.pos) == food_positions@,
{
    let snakes = collect_snakes(records);
    let mut foods: Vec<FoodBody> = Vec::new();
    let mut i: usize = 0;
    while i < food_positions.len()
        invariant
            0 <= i <= food_positions@.len(),
            foods@.map_values(|f: FoodBody| f.pos) =~= food_positions@.take(i as int),
        decreases food_positions@.len() - i,
    {
        let ghost pre = foods@;
        foods.push(FoodBody { pos: food_positions[i] });
        proof {
            assert(foods@ =~= pre.push(FoodBody { pos: food_positions@[i as int] }));
            assert(foods@.map_values(|f: FoodBody| f.pos) =~= pre.map_values(
                |f: FoodBody| f.pos,
            ).push(food_positions@[i as int]));
            assert(foods@.map_values(|f: FoodBody| f.pos) =~= food_positions@.take(i + 1));
        }
        i += 1;
    }
    proof {
        assert(food_positions@.take(food_positions@.len() as int) =~= food_positions@);
    }
    SnakeWorld { snakes, foods }
}

} // verus!
