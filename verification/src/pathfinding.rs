//! Grid pathfinding: A* over a tile grid, with the open list kept as a
//! binary heap of indices into the visited-node table.
//!
//! What is proved: the search terminates, every index juggling is safe,
//! and a returned path is a real route — every step lands on a passable
//! tile adjacent to the one before, starting next to the start tile and
//! ending on the requested tile.  The heap order itself only steers which
//! route is found first, so it carries no contract beyond well-formedness.

use vstd::prelude::*;

verus! {

/// A tile coordinate: `x` names the row, `y` the column.
#[derive(Clone, Copy, Debug, PartialEq, Eq, Structural)]
pub struct Point {
    pub x: usize,
    pub y: usize,
}

impl Point {
    pub fn new(x: usize, y: usize) -> (r: Point)
        ensures
            r == (Point { x, y }),
    {
        Point { x, y }
    }

    /// The Manhattan distance between two tiles.
    pub fn get_distance(&self, other: Point) -> (r: usize)
        requires
            self.x + self.y + other.x + other.y <= usize::MAX,
        ensures
            r == spec_distance(*self, other),
    {
        let hor = if self.x > other.x {
            self.x - other.x
        } else {
            other.x - self.x
        };
        let ver = if self.y > other.y {
            self.y - other.y
        } else {
            other.y - self.y
        };
        hor + ver
    }

    fn to_index(&self, row_size: usize) -> (r: usize)
        requires
            self.x * row_size + self.y <= usize::MAX,
        ensures
            r == spec_index(*self, row_size as int),
    {
        self.x * row_size + self.y
    }
}

/// The Manhattan distance.
pub open spec fn spec_distance(a: Point, b: Point) -> int {
    let dx = if a.x >= b.x {
        a.x - b.x
    } else {
        b.x - a.x
    };
    let dy = if a.y >= b.y {
        a.y - b.y
    } else {
        b.y - a.y
    };
    dx + dy
}

/// Two tiles adjacent: one step apart.
pub open spec fn spec_adjacent(a: Point, b: Point) -> bool {
    spec_distance(a, b) == 1
}

/// The slot of a tile in the row-major grid.
pub open spec fn spec_index(p: Point, row_size: int) -> int {
    p.x * row_size + p.y
}

/// A route: the tiles to step on, in order, the start tile excluded.
#[derive(Clone, Debug, PartialEq, Eq)]
pub struct Path(pub Vec<Point>);

/// A bound on the number of tiles a grid may hold, so that no distance or
/// cost arithmetic can overflow even a 32-bit machine.
pub const TILE_LIMIT: usize = 0x0fff_ffff;

/// The tile grid the search walks: one byte per tile, zero blocking.
pub struct AStarTiles {
    row_size: usize,
    row_number: usize,
    inner: Vec<u8>,
}

impl AStarTiles {
    pub closed spec fn spec_row_size(self) -> int {
        self.row_size as int
    }

    pub closed spec fn spec_row_number(self) -> int {
        self.row_number as int
    }

    pub closed spec fn tiles(self) -> Seq<u8> {
        self.inner@
    }

    /// At least two rows of at least two tiles, one byte per tile, and a
    /// total small enough for the cost arithmetic.
    pub open spec fn wf(self) -> bool {
        &&& self.spec_row_size() >= 2
        &&& self.spec_row_number() >= 2
        &&& self.tiles().len() == self.spec_row_size() * self.spec_row_number()
        &&& self.tiles().len() <= TILE_LIMIT
    }

    /// Whether a tile coordinate lies on the grid.
    pub open spec fn valid_point(self, p: Point) -> bool {
        p.x < self.spec_row_number() && p.y < self.spec_row_size()
    }

    /// Whether a tile can be stepped on.
    pub open spec fn passable(self, p: Point) -> bool {
        self.tiles()[spec_index(p, self.spec_row_size())] != 0
    }

    pub fn new(pos: Vec<u8>, row_size: usize) -> (r: AStarTiles)
        requires
            row_size >= 2,
            pos@.len() as int % row_size as int == 0,
            pos@.len() as int / row_size as int >= 2,
            pos@.len() <= TILE_LIMIT,
        ensures
            r.wf(),
            r.tiles() == pos@,
            r.spec_row_size() == row_size,
    {
        let row_number = pos.len() / row_size;
        proof {
            vstd::arithmetic::div_mod::lemma_fundamental_div_mod(
                pos@.len() as int,
                row_size as int,
            );
        }
        AStarTiles { row_size, row_number, inner: pos }
    }

    fn row_size_value(&self) -> (r: usize)
        ensures
            r == self.spec_row_size(),
    {
        self.row_size
    }

    /// How many tiles the grid holds.
    pub fn tile_count(&self) -> (r: usize)
        ensures
            r == self.tiles().len(),
    {
        self.inner.len()
    }

    fn get_point(&self, point: Point) -> (r: u8)
        requires
            self.wf(),
            self.valid_point(point),
        ensures
            r == self.tiles()[spec_index(point, self.spec_row_size())],
    {
        proof {
            lemma_index_in_range(*self, point);
        }
        let pos = point.x * self.row_size + point.y;
        self.inner[pos]
    }

    /// The passable neighbours of a tile, each one step away.
    fn valid_points_around(&self, point: Point) -> (r: Vec<Point>)
        requires
            self.wf(),
            self.valid_point(point),
        ensures
            forall|k: int|
                0 <= k < r@.len() ==> self.valid_point(#[trigger] r@[k]) && self.passable(r@[k])
                    && spec_adjacent(point, r@[k]),
    {
        let mut res: Vec<Point> = Vec::new();
        if point.x != 0 {
            let p = Point::new(point.x - 1, point.y);
            if self.get_point(p) != 0 {
                res.push(p);
            }
        }
        if point.x != self.row_number - 1 {
            let p = Point::new(point.x + 1, point.y);
            if self.get_point(p) != 0 {
                res.push(p);
            }
        }
        if point.y != 0 {
            let p = Point::new(point.x, point.y - 1);
            if self.get_point(p) != 0 {
                res.push(p);
            }
        }
        if point.y != self.row_size - 1 {
            let p = Point::new(point.x, point.y + 1);
            if self.get_point(p) != 0 {
                res.push(p);
            }
        }
        res
    }

    /// Finds a route from next to `start` onto `end`, if the search
    /// reaches it.
    pub fn do_pathfinding(&self, start: Point, end: Point) -> (r: Option<Path>)
        requires
            self.wf(),
            self.valid_point(start),
            self.valid_point(end),
        ensures
            r matches Some(path) ==> path_ok(*self, start, path.0@) && path.0@.last() == end,
    {
        pathfinding_heap(self, start, end)
    }
}

/// Distinct tiles sit in distinct grid slots.
proof fn lemma_index_injective(map: AStarTiles, a: Point, b: Point)
    requires
        map.wf(),
        map.valid_point(a),
        map.valid_point(b),
        spec_index(a, map.spec_row_size()) == spec_index(b, map.spec_row_size()),
    ensures
        a == b,
{
    assert(a.x == b.x && a.y == b.y) by (nonlinear_arith)
        requires
            a.x * map.spec_row_size() + a.y == b.x * map.spec_row_size() + b.y,
            a.y < map.spec_row_size(),
            b.y < map.spec_row_size(),
            map.spec_row_size() >= 2,
            a.x >= 0 && b.x >= 0 && a.y >= 0 && b.y >= 0,
    ;
}

/// A valid tile's slot lies on the grid.
proof fn lemma_index_in_range(map: AStarTiles, p: Point)
    requires
        map.wf(),
        map.valid_point(p),
    ensures
        0 <= spec_index(p, map.spec_row_size()) < map.tiles().len(),
        spec_index(p, map.spec_row_size()) <= TILE_LIMIT,
{
    assert(p.x * map.spec_row_size() + p.y < map.spec_row_number() * map.spec_row_size()) by (
    nonlinear_arith)
        requires
            p.x < map.spec_row_number(),
            p.y < map.spec_row_size(),
            map.spec_row_size() >= 2,
            p.x >= 0 && p.y >= 0,
    ;
    assert(map.spec_row_number() * map.spec_row_size() == map.tiles().len()) by (nonlinear_arith)
        requires
            map.tiles().len() == map.spec_row_size() * map.spec_row_number(),
    ;
}

/// A route is sound: every step is a passable tile on the grid, the first
/// adjacent to the start, each next adjacent to the one before.
pub open spec fn path_ok(map: AStarTiles, start: Point, pts: Seq<Point>) -> bool {
    &&& pts.len() > 0
    &&& forall|i: int| 0 <= i < pts.len() ==> map.valid_point(#[trigger] pts[i]) && map.passable(pts[i])
    &&& spec_adjacent(start, pts[0])
    &&& forall|i: int| 1 <= i < pts.len() ==> spec_adjacent(#[trigger] pts[i - 1], pts[i])
}

/// As `path_ok`, for the partial routes the search accumulates: the empty
/// route stands for the start tile itself.
pub open spec fn node_route_ok(map: AStarTiles, start: Point, n: AStarNode) -> bool {
    &&& map.valid_point(n.point)
    &&& map.passable(n.point) || n.point == start
    &&& if n.path.0@.len() == 0 {
        n.point == start
    } else {
        path_ok(map, start, n.path.0@) && n.path.0@.last() == n.point
    }
}

/// A visited tile: its coordinate, its cost so far `g`, its estimated
/// total `f`, and the route that reached it.
pub struct AStarNode {
    pub point: Point,
    pub f: usize,
    pub g: usize,
    pub path: Path,
}

impl AStarNode {
    fn new(point: Point, g: usize, f: usize, path: Path) -> (r: AStarNode)
        ensures
            r == (AStarNode { point, f, g, path }),
    {
        AStarNode { point, f, g, path }
    }
}

/// How many slots of the table are taken.
pub open spec fn count_some(s: Seq<Option<usize>>) -> int
    decreases s.len(),
{
    if s.len() == 0 {
        0
    } else {
        count_some(s.drop_last()) + if s.last() is Some {
            1int
        } else {
            0int
        }
    }
}

proof fn lemma_count_some_all_none(s: Seq<Option<usize>>)
    requires
        forall|j: int| 0 <= j < s.len() ==> (#[trigger] s[j]) is None,
    ensures
        count_some(s) == 0,
    decreases s.len(),
{
    if s.len() > 0 {
        lemma_count_some_all_none(s.drop_last());
    }
}

proof fn lemma_count_some_le_len(s: Seq<Option<usize>>)
    ensures
        0 <= count_some(s) <= s.len(),
    decreases s.len(),
{
    if s.len() > 0 {
        lemma_count_some_le_len(s.drop_last());
    }
}

proof fn lemma_count_some_update(s: Seq<Option<usize>>, j: int, v: usize)
    requires
        0 <= j < s.len(),
        s[j] is None,
    ensures
        count_some(s.update(j, Some(v))) == count_some(s) + 1,
    decreases s.len(),
{
    let t = s.update(j, Some(v));
    if j == s.len() - 1 {
        assert(t.drop_last() =~= s.drop_last());
    } else {
        assert(t.drop_last() =~= s.drop_last().update(j, Some(v)));
        lemma_count_some_update(s.drop_last(), j, v);
        assert(t.last() == s.last());
    }
}

/// Every entry of the open list names a visited node.
pub open spec fn open_ok(open: Seq<usize>, n: int) -> bool {
    forall|k: int| 0 <= k < open.len() ==> (#[trigger] open[k]) < n
}

/// The whole search state is sound: the table mirrors the visited nodes
/// one slot per tile, every route accumulated so far is a real route, and
/// costs stay below the tile count.
pub open spec fn astar_ok(map: AStarTiles, start: Point, checked: Seq<AStarNode>, slots: Seq<
    Option<usize>,
>, open: Seq<usize>) -> bool {
    &&& slots.len() == map.tiles().len()
    &&& count_some(slots) == checked.len()
    &&& forall|i: int|
        0 <= i < checked.len() ==> node_route_ok(map, start, #[trigger] checked[i]) && slots[
        spec_index(checked[i].point, map.spec_row_size())] == Some(i as usize) && checked[i].g
            <= map.tiles().len()
    &&& forall|j: int|
        0 <= j < slots.len() ==> ((#[trigger] slots[j]) matches Some(i) ==> i < checked.len()
            && spec_index(checked[i as int].point, map.spec_row_size()) == j)
    &&& open_ok(open, checked.len() as int)
}

/// Copies a route's points.
fn copy_points(v: &Vec<Point>) -> (r: Vec<Point>)
    ensures
        r@ == v@,
{
    let mut r: Vec<Point> = Vec::new();
    let mut i: usize = 0;
    while i < v.len()
        invariant
            i <= v.len(),
            r@ == v@.take(i as int),
        decreases v.len() - i,
    {
        r.push(v[i]);
        proof {
            assert(r@ =~= v@.take(i as int + 1));
        }
        i = i + 1;
    }
    proof {
        assert(v@.take(v@.len() as int) =~= v@);
    }
    r
}

/// Whether the closed list already holds a tile.
fn closed_contains(closed: &Vec<Point>, p: Point) -> (r: bool)
    ensures
        r == closed@.contains(p),
{
    let mut i: usize = 0;
    while i < closed.len()
        invariant
            i <= closed.len(),
            forall|j: int| 0 <= j < i ==> closed@[j] != p,
        decreases closed.len() - i,
    {
        if closed[i].x == p.x && closed[i].y == p.y {
            return true;
        }
        i = i + 1;
    }
    proof {
        assert(!closed@.contains(p));
    }
    false
}

/// Sifts the entry at `index` up towards the front.  Keeps the list's
/// length and the validity of every entry; the ordering itself carries no
/// contract.
fn binary_heap_up(open_list: &mut Vec<usize>, checked: &Vec<AStarNode>, index: usize)
    requires
        open_ok(old(open_list)@, checked@.len() as int),
        index < old(open_list)@.len(),
    ensures
        final(open_list)@.len() == old(open_list)@.len(),
        open_ok(final(open_list)@, checked@.len() as int),
{
    let mut current_position = index;
    let node_index = open_list[current_position];
    let f = checked[node_index].f;
    loop
        invariant
            open_ok(open_list@, checked@.len() as int),
            open_list@.len() == old(open_list)@.len(),
            current_position < open_list@.len(),
        ensures
            open_ok(open_list@, checked@.len() as int),
            open_list@.len() == old(open_list)@.len(),
        decreases current_position,
    {
        let n = open_list.len();
        if current_position == 0 {
            return ;
        }
        let parent = ((current_position + 1) / 2) - 1;
        proof {
            assert(parent < current_position);
        }
        if checked[open_list[parent]].f > f {
            let a = open_list[current_position];
            let b = open_list[parent];
            let ghost pre = open_list@;
            open_list[current_position] = b;
            open_list[parent] = a;
            proof {
                assert(open_list@ =~= pre.update(current_position as int, b).update(
                    parent as int,
                    a,
                ));
            }
            current_position = parent;
        } else {
            return ;
        }
    }
}

/// Takes the front entry off the heap and re-sinks the replacement.
fn binary_heap_pop(open_list: &mut Vec<usize>, checked: &Vec<AStarNode>) -> (r: Option<usize>)
    requires
        open_ok(old(open_list)@, checked@.len() as int),
        old(open_list)@.len() <= TILE_LIMIT,
    ensures
        open_ok(final(open_list)@, checked@.len() as int),
        match r {
            Some(idx) => idx < checked@.len() && final(open_list)@.len() == old(
                open_list,
            )@.len() - 1,
            None => old(open_list)@.len() == 0 && final(open_list)@ == old(open_list)@,
        },
{
    if open_list.len() == 0 {
        return None;
    }
    let ghost pre = open_list@;
    let first = open_list[0];
    let result = open_list.swap_remove(0);
    proof {
        assert(forall|k: int|
            0 <= k < open_list@.len() ==> open_list@[k] == pre[k] || open_list@[k] == pre[
        pre.len() - 1]);
    }
    if open_list.len() == 0 {
        return Some(result);
    }
    let mut current_position: usize = 0;
    let node_index = open_list[current_position];
    let f = checked[node_index].f;
    loop
        invariant
            open_ok(open_list@, checked@.len() as int),
            open_list@.len() == old(open_list)@.len() - 1,
            open_list@.len() <= TILE_LIMIT,
            current_position < open_list@.len(),
            result < checked@.len(),
        ensures
            open_ok(open_list@, checked@.len() as int),
            open_list@.len() == old(open_list)@.len() - 1,
        decreases open_list@.len() - current_position,
    {
        let n = open_list.len();
        let child1_idx = ((current_position + 1) * 2) - 1;
        let child2_idx = child1_idx + 1;
        proof {
            assert(child1_idx > current_position);
        }
        if child1_idx >= open_list.len() {
            return Some(result);
        }
        if child2_idx < open_list.len() {
            let child1 = open_list[child1_idx];
            let child2 = open_list[child2_idx];
            let child1_f = checked[child1].f;
            let child2_f = checked[child2].f;
            if f < child1_f && f < child2_f {
                return Some(result);
            }
            let chosen = if child1_f <= child2_f {
                child1_idx
            } else {
                child2_idx
            };
            let a = open_list[current_position];
            let b = open_list[chosen];
            let ghost mid = open_list@;
            open_list[current_position] = b;
            open_list[chosen] = a;
            proof {
                assert(open_list@ =~= mid.update(current_position as int, b).update(
                    chosen as int,
                    a,
                ));
            }
            current_position = chosen;
        } else {
            let child = open_list[child1_idx];
            let child_f = checked[child].f;
            if child_f < f {
                let a = open_list[current_position];
                let ghost mid = open_list@;
                open_list[current_position] = child;
                open_list[child1_idx] = a;
                proof {
                    assert(open_list@ =~= mid.update(current_position as int, child).update(
                        child1_idx as int,
                        a,
                    ));
                }
            }
            return Some(result);
        }
    }
}

/// Adds one reachable neighbour to the search: a tile seen before gets
/// its route improved when the new estimate is better; a fresh tile joins
/// the table, the open heap, and the grid slots.  A route that would be
/// longer than the grid has tiles would revisit one, so it is refused.
#[verifier::rlimit(100)]
fn add_to_open(open_list: &mut Vec<usize>, index_to_checked: &mut Vec<Option<usize>>,
    checked: &mut Vec<AStarNode>, parent_idx: usize, point: Point, end: Point,
    map: &AStarTiles, Ghost(start): Ghost<Point>)
    requires
        map.wf(),
        map.valid_point(point),
        map.passable(point),
        map.valid_point(end),
        parent_idx < old(checked)@.len(),
        spec_adjacent(old(checked)@[parent_idx as int].point, point),
        astar_ok(*map, start, old(checked)@, old(index_to_checked)@, old(open_list)@),
    ensures
        astar_ok(*map, start, final(checked)@, final(index_to_checked)@, final(open_list)@),
        (final(checked)@.len() == old(checked)@.len() && final(open_list)@.len() == old(
            open_list,
        )@.len()) || (final(checked)@.len() == old(checked)@.len() + 1 && final(open_list)@.len()
            == old(open_list)@.len() + 1),
        forall|i: int|
            0 <= i < old(checked)@.len() ==> (#[trigger] final(checked)@[i]).point == old(
            checked)@[i].point,
{
    proof {
        lemma_index_in_range(*map, point);
        lemma_count_some_le_len(old(index_to_checked)@);
    }
    let point_index = point.to_index(map.row_size_value());
    let parent_g = checked[parent_idx].g;
    if parent_g >= map.tile_count() {
        return ;
    }
    let parent_path = copy_points(&checked[parent_idx].path.0);
    let ghost parent_node = checked@[parent_idx as int];
    let g = parent_g + 1;
    proof {
        lemma_distance_bounded(*map, point, end);
    }
    let f = g + point.get_distance(end);
    let mut new_path = parent_path;
    new_path.push(point);
    proof {
        lemma_route_extends(*map, start, parent_node, point);
        assert(new_path@ =~= parent_node.path.0@.push(point));
    }
    match index_to_checked[point_index] {
        Some(pos) => {
            proof {
                assert(pos < checked@.len());
                assert(checked@[pos as int].point == point) by {
                    lemma_index_injective(*map, checked@[pos as int].point, point);
                }
            }
            let ghost pre = checked@;
            if f < checked[pos].f {
                let slot = &mut checked[pos];
                slot.g = g;
                slot.f = f;
                slot.path = Path(new_path);
                proof {
                    assert(checked@ =~= pre.update(pos as int, checked@[pos as int]));
                    assert(node_route_ok(*map, start, checked@[pos as int]));
                    assert forall|i: int|
                        0 <= i < checked@.len() implies node_route_ok(
                        *map,
                        start,
                        #[trigger] checked@[i],
                    ) && index_to_checked@[spec_index(checked@[i].point, map.spec_row_size())]
                        == Some(i as usize) && checked@[i].g <= map.tiles().len() by {
                        if i != pos as int {
                            assert(checked@[i] == pre[i]);
                        }
                    }
                }
                let heap_len = open_list.len();
                let mut h: usize = 0;
                let mut found: Option<usize> = None;
                while h < heap_len
                    invariant
                        heap_len == open_list@.len(),
                        h <= heap_len,
                        found matches Some(w) ==> w < open_list@.len(),
                    decreases heap_len - h,
                {
                    if open_list[h] == pos && found.is_none() {
                        found = Some(h);
                    }
                    h = h + 1;
                }
                match found {
                    Some(w) => {
                        binary_heap_up(open_list, checked, w);
                    },
                    None => {},
                }
            }
        },
        None => {
            let new_index = checked.len();
            checked.push(AStarNode::new(point, g, f, Path(new_path)));
            proof {
                lemma_count_some_update(index_to_checked@, point_index as int, new_index);
            }
            let slot = &mut index_to_checked[point_index];
            *slot = Some(new_index);
            proof {
                assert(index_to_checked@ =~= old(index_to_checked)@.update(
                    point_index as int,
                    Some(new_index),
                ));
                assert forall|i: int|
                    0 <= i < checked@.len() implies node_route_ok(
                    *map,
                    start,
                    #[trigger] checked@[i],
                ) && index_to_checked@[spec_index(checked@[i].point, map.spec_row_size())]
                    == Some(i as usize) && checked@[i].g <= map.tiles().len() by {
                    if i < new_index as int {
                        assert(checked@[i] == old(checked)@[i]);
                        lemma_index_in_range(*map, checked@[i].point);
                        let ji = spec_index(checked@[i].point, map.spec_row_size());
                        assert(old(index_to_checked)@[ji] == Some(i as usize));
                        assert(ji != point_index as int) by {
                            if ji == point_index as int {
                                lemma_index_injective(*map, checked@[i].point, point);
                            }
                        }
                        assert(index_to_checked@[ji] == old(index_to_checked)@[ji]);
                    } else {
                        lemma_index_in_range(*map, point);
                        assert(index_to_checked@[point_index as int] == Some(new_index));
                    }
                }
                assert forall|j: int|
                    0 <= j < index_to_checked@.len() implies ((
                #[trigger] index_to_checked@[j]) matches Some(i) ==> i < checked@.len()
                    && spec_index(checked@[i as int].point, map.spec_row_size()) == j) by {
                    if j != point_index as int {
                        assert(index_to_checked@[j] == old(index_to_checked)@[j]);
                    }
                }
            }
            open_list.push(new_index);
            let heap_index = open_list.len() - 1;
            proof {
                assert(forall|k: int|
                    0 <= k < open_list@.len() - 1 ==> open_list@[k] == old(open_list)@[k]);
            }
            binary_heap_up(open_list, checked, heap_index);
        },
    }
}

/// A parent's route, one adjacent passable tile further.
proof fn lemma_route_extends(map: AStarTiles, start: Point, parent: AStarNode, point: Point)
    requires
        map.wf(),
        node_route_ok(map, start, parent),
        map.valid_point(point),
        map.passable(point),
        spec_adjacent(parent.point, point),
    ensures
        path_ok(map, start, parent.path.0@.push(point)),
        parent.path.0@.push(point).last() == point,
{
    let pts = parent.path.0@.push(point);
    if parent.path.0@.len() == 0 {
        assert(pts[0] == point);
    } else {
        assert(parent.path.0@.last() == parent.point);
        assert forall|i: int| 1 <= i < pts.len() implies spec_adjacent(
            #[trigger] pts[i - 1],
            pts[i],
        ) by {
            if i < pts.len() - 1 {
                assert(pts[i - 1] == parent.path.0@[i - 1]);
                assert(pts[i] == parent.path.0@[i]);
            } else {
                assert(pts[i - 1] == parent.path.0@[parent.path.0@.len() - 1]);
            }
        }
    }
}

/// The Manhattan distance of two grid tiles stays below the tile count on
/// each axis, so a cost estimate fits comfortably.
proof fn lemma_distance_bounded(map: AStarTiles, a: Point, b: Point)
    requires
        map.wf(),
        map.valid_point(a),
        map.valid_point(b),
    ensures
        0 <= spec_distance(a, b) <= 2 * TILE_LIMIT,
        a.x + a.y + b.x + b.y <= 4 * TILE_LIMIT,
{
    assert(map.spec_row_number() <= map.tiles().len() && map.spec_row_size()
        <= map.tiles().len()) by (nonlinear_arith)
        requires
            map.tiles().len() == map.spec_row_size() * map.spec_row_number(),
            map.spec_row_size() >= 2,
            map.spec_row_number() >= 2,
    ;
}

/// The search itself: pop the most promising tile, stop when a neighbour
/// is the goal, otherwise spread to the neighbours not yet closed.
#[verifier::rlimit(100)]
fn pathfinding_heap(map: &AStarTiles, start: Point, end: Point) -> (r: Option<Path>)
    requires
        map.wf(),
        map.valid_point(start),
        map.valid_point(end),
    ensures
        r matches Some(path) ==> path_ok(*map, start, path.0@) && path.0@.last() == end,
{
    proof {
        lemma_index_in_range(*map, start);
        lemma_distance_bounded(*map, start, end);
    }
    let mut open_list: Vec<usize> = Vec::new();
    let mut closed_list: Vec<Point> = Vec::new();
    let mut index_to_checked: Vec<Option<usize>> = vec![None; map.tile_count()];
    let mut checked: Vec<AStarNode> = Vec::new();
    checked.push(AStarNode::new(start, 0, start.get_distance(end), Path(Vec::new())));
    let start_slot = start.to_index(map.row_size_value());
    proof {
        lemma_count_some_all_none(index_to_checked@);
        lemma_count_some_le_len(index_to_checked@);
        lemma_count_some_update(index_to_checked@, start_slot as int, 0);
    }
    let slot = &mut index_to_checked[start_slot];
    *slot = Some(0);
    open_list.push(0);
    proof {
        assert(index_to_checked@ =~= Seq::new(
            map.tiles().len() as nat,
            |j: int| Option::<usize>::None,
        ).update(start_slot as int, Some(0usize)));
        assert forall|j: int|
            0 <= j < index_to_checked@.len() implies ((#[trigger] index_to_checked@[j])
            matches Some(i) ==> i < checked@.len() && spec_index(
            checked@[i as int].point,
            map.spec_row_size(),
        ) == j) by {}
        assert(astar_ok(*map, start, checked@, index_to_checked@, open_list@));
    }
    let ghost mut popped: int = 0int;
    loop
        invariant
            map.wf(),
            map.valid_point(start),
            map.valid_point(end),
            astar_ok(*map, start, checked@, index_to_checked@, open_list@),
            popped >= 0,
            popped + open_list@.len() <= checked@.len(),
            checked@.len() <= map.tiles().len(),
        decreases map.tiles().len() - popped,
    {
        proof {
            lemma_count_some_le_len(index_to_checked@);
        }
        let node = match binary_heap_pop(&mut open_list, &checked) {
            None => {
                return None;
            },
            Some(node) => node,
        };
        proof {
            popped = popped + 1;
        }
        let around = map.valid_points_around(checked[node].point);
        let mut k: usize = 0;
        while k < around.len()
            invariant
                map.wf(),
                map.valid_point(start),
                map.valid_point(end),
                node < checked@.len(),
                k <= around@.len(),
                forall|t: int|
                    0 <= t < around@.len() ==> map.valid_point(#[trigger] around@[t])
                        && map.passable(around@[t]) && spec_adjacent(
                        checked@[node as int].point,
                        around@[t],
                    ),
                astar_ok(*map, start, checked@, index_to_checked@, open_list@),
                popped + open_list@.len() <= checked@.len(),
                checked@.len() <= map.tiles().len(),
            decreases around@.len() - k,
        {
            let point = around[k];
            if point.x == end.x && point.y == end.y {
                let mut path = copy_points(&checked[node].path.0);
                path.push(point);
                proof {
                    lemma_route_extends(*map, start, checked@[node as int], point);
                    assert(path@ =~= checked@[node as int].path.0@.push(point));
                }
                return Some(Path(path));
            }
            if !closed_contains(&closed_list, point) {
                let ghost checked_pre = checked@;
                add_to_open(
                    &mut open_list,
                    &mut index_to_checked,
                    &mut checked,
                    node,
                    point,
                    end,
                    map,
                    Ghost(start),
                );
                proof {
                    lemma_count_some_le_len(index_to_checked@);
                    assert(checked@[node as int].point == checked_pre[node as int].point);
                }
            }
            k = k + 1;
        }
        closed_list.push(checked[node].point);
    }
}

} // verus!
