//! Bidirectional breadth-first search over an obstacle grid.
//!
//! Two searches expand simultaneously, one rooted at the start and one at
//! the end; when their visited sets intersect, the path is rebuilt by
//! walking parent pointers from the meeting point back to both roots.

use vstd::prelude::*;

use crate::GameCoord;
use crate::grid::Grid;
use std::collections::VecDeque;

verus! {

/// The cell lies inside a grid of the given dimensions.
pub open spec fn in_bounds(c: GameCoord, rows: int, cols: int) -> bool {
    c.y < rows && c.x < cols
}

/// The cell is not an obstacle.
pub open spec fn passable(g: Grid<bool>, c: GameCoord) -> bool
    recommends
        g.wf(),
        in_bounds(c, g.rows as int, g.cols as int),
{
    !g.at(c.y as int, c.x as int)
}

/// Two distinct cells within one king-move of each other (8-directional).
pub open spec fn is_step(a: GameCoord, b: GameCoord) -> bool {
    &&& !(a == b)
    &&& -1 <= a.x - b.x <= 1
    &&& -1 <= a.y - b.y <= 1
}

/// Every cell of the segment is in bounds and passable, and consecutive
/// cells are 8-neighbors.
pub open spec fn seg_ok(p: Seq<GameCoord>, g: Grid<bool>) -> bool {
    &&& forall|i: int|
        0 <= i < p.len() ==> in_bounds(#[trigger] p[i], g.rows as int, g.cols as int) && passable(
            g,
            p[i],
        )
    &&& forall|i: int| 0 <= i < p.len() - 1 ==> is_step(#[trigger] p[i], p[i + 1])
}

/// A well-formed path from `start` to `end`: non-empty, fully inside the
/// grid, avoiding every obstacle, moving one king-step at a time.
pub open spec fn path_ok(p: Seq<GameCoord>, g: Grid<bool>, start: GameCoord, end: GameCoord) -> bool {
    &&& p.len() >= 1
    &&& p[0] == start
    &&& p[p.len() - 1] == end
    &&& seg_ok(p, g)
}


/// The cell occurs somewhere in the queue.
pub open spec fn in_queue(q: Seq<GameCoord>, c: GameCoord) -> bool {
    exists|i: int| 0 <= i < q.len() && q[i] == c
}

/// A cell already in a queue stays in it when another cell is pushed at
/// the front.
proof fn lemma_in_queue_push_front(q: Seq<GameCoord>, c: GameCoord, n: GameCoord)
    requires
        in_queue(q, c),
    ensures
        in_queue(seq![n] + q, c),
{
    let i = choose|i: int| 0 <= i < q.len() && q[i] == c;
    assert((seq![n] + q)[i + 1] == c);
}

/// Every passable in-bounds cell within one king-move of (y, x) is
/// visited.
pub open spec fn cell_closed(visited: Grid<bool>, g: Grid<bool>, y: int, x: int) -> bool {
    forall|y2: int, x2: int|
        0 <= y2 < g.rows && 0 <= x2 < g.cols && -1 <= y2 - y <= 1 && -1 <= x2 - x <= 1 && !g.at(
            y2,
            x2,
        ) ==> #[trigger] visited.at(y2, x2)
}

/// In a visited set where every visited cell is closed, a well-formed
/// segment that starts on a visited cell stays visited to its end.
proof fn lemma_closed_reaches_last(visited: Grid<bool>, g: Grid<bool>, p: Seq<GameCoord>)
    requires
        g.wf(),
        visited.rows == g.rows,
        visited.cols == g.cols,
        forall|y: usize, x: usize|
            y < g.rows && x < g.cols && #[trigger] visited.at(y as int, x as int) ==> cell_closed(
                visited,
                g,
                y as int,
                x as int,
            ),
        seg_ok(p, g),
        p.len() >= 1,
        visited.at(p[0].y as int, p[0].x as int),
    ensures
        visited.at(p[p.len() - 1].y as int, p[p.len() - 1].x as int),
    decreases p.len(),
{
    if p.len() >= 2 {
        assert(is_step(p[0], p[1]));
        assert(in_bounds(p[1], g.rows as int, g.cols as int) && passable(g, p[1]));
        assert(cell_closed(visited, g, p[0].y as int, p[0].x as int));
        assert(visited.at(p[1].y as int, p[1].x as int));
        let q = p.drop_first();
        assert forall|i: int| 0 <= i < q.len() implies in_bounds(
            #[trigger] q[i],
            g.rows as int,
            g.cols as int,
        ) && passable(g, q[i]) by {
            assert(q[i] == p[i + 1]);
        }
        assert forall|i: int| 0 <= i < q.len() - 1 implies is_step(#[trigger] q[i], q[i + 1]) by {
            assert(q[i] == p[i + 1] && q[i + 1] == p[i + 2]);
        }
        lemma_closed_reaches_last(visited, g, q);
        assert(q[q.len() - 1] == p[p.len() - 1]);
    }
}

/// In a visited set where every visited cell is closed, a well-formed
/// segment that ends on a visited cell is visited back to its first cell.
proof fn lemma_closed_reaches_first(visited: Grid<bool>, g: Grid<bool>, p: Seq<GameCoord>)
    requires
        g.wf(),
        visited.rows == g.rows,
        visited.cols == g.cols,
        forall|y: usize, x: usize|
            y < g.rows && x < g.cols && #[trigger] visited.at(y as int, x as int) ==> cell_closed(
                visited,
                g,
                y as int,
                x as int,
            ),
        seg_ok(p, g),
        p.len() >= 1,
        visited.at(p[p.len() - 1].y as int, p[p.len() - 1].x as int),
    ensures
        visited.at(p[0].y as int, p[0].x as int),
    decreases p.len(),
{
    if p.len() >= 2 {
        assert(is_step(p[p.len() - 2], p[p.len() - 1]));
        assert(in_bounds(p[p.len() - 2], g.rows as int, g.cols as int) && passable(
            g,
            p[p.len() - 2],
        ));
        assert(cell_closed(visited, g, p[p.len() - 1].y as int, p[p.len() - 1].x as int));
        assert(visited.at(p[p.len() - 2].y as int, p[p.len() - 2].x as int));
        let q = p.drop_last();
        assert forall|i: int| 0 <= i < q.len() implies in_bounds(
            #[trigger] q[i],
            g.rows as int,
            g.cols as int,
        ) && passable(g, q[i]) by {
            assert(q[i] == p[i]);
        }
        assert forall|i: int| 0 <= i < q.len() - 1 implies is_step(#[trigger] q[i], q[i + 1]) by {
            assert(q[i] == p[i] && q[i + 1] == p[i + 1]);
        }
        assert(q[q.len() - 1] == p[p.len() - 2]);
        lemma_closed_reaches_first(visited, g, q);
        assert(q[0] == p[0]);
    }
}

/// Number of cells still unmarked in a visited vector.
pub closed spec fn count_false(s: Seq<bool>) -> nat
    decreases s.len(),
{
    if s.len() == 0 {
        0
    } else {
        count_false(s.drop_last()) + (if s.last() {
            0nat
        } else {
            1nat
        })
    }
}

/// Marking one unmarked cell lowers the unmarked count by exactly one.
proof fn lemma_count_false_update(s: Seq<bool>, i: int)
    requires
        0 <= i < s.len(),
        !s[i],
    ensures
        count_false(s.update(i, true)) + 1 == count_false(s),
    decreases s.len(),
{
    let t = s.update(i, true);
    if i == s.len() - 1 {
        assert(t.drop_last() =~= s.drop_last());
    } else {
        assert(t.drop_last() =~= s.drop_last().update(i, true));
        lemma_count_false_update(s.drop_last(), i);
    }
}

/// One frontier of the bidirectional search: a visited grid, a
/// parent-pointer grid, the queue of cells to expand, plus ghost
/// bookkeeping (the root and a discovery rank used to show that parent
/// chains shorten toward the root).
pub struct Search {
    pub visited: Grid<bool>,
    pub parents: Grid<Option<GameCoord>>,
    pub queue: VecDeque<GameCoord>,
    pub root: Ghost<GameCoord>,
    pub rank: Ghost<Map<GameCoord, nat>>,
}


/// Closure of a search frontier: a visited cell still waiting in the queue
/// may have unvisited neighbors; every other visited cell has all its
/// passable neighbors visited. With an empty queue the whole visited set
/// is closed, so it holds everything reachable from the root.
pub open spec fn frontier_closed(s: Search, g: Grid<bool>) -> bool {
    forall|y: usize, x: usize|
        y < g.rows && x < g.cols && #[trigger] s.visited.at(y as int, x as int) && !in_queue(
            s.queue@,
            GameCoord { x, y },
        ) ==> cell_closed(s.visited, g, y as int, x as int)
}

/// Marking one fresh neighbor and queueing it preserves the bookkeeping of
/// one expansion round: visited cells only grow, the not-yet-popped part
/// of the entry queue stays queued, cells discovered during the round stay
/// queued, and every visited cell that is neither queued nor the cell
/// under expansion stays closed.
proof fn lemma_mark_preserves_closure(
    entry: Search,
    pre: Search,
    post: Search,
    g: Grid<bool>,
    current: GameCoord,
    n: GameCoord,
)
    requires
        g.wf(),
        pre.visited.wf(),
        pre.visited.rows == g.rows,
        pre.visited.cols == g.cols,
        in_bounds(n, g.rows as int, g.cols as int),
        !pre.visited.at(n.y as int, n.x as int),
        post.visited.wf(),
        post.visited.rows == g.rows,
        post.visited.cols == g.cols,
        post.visited.at(n.y as int, n.x as int) == true,
        forall|y: int, x: int|
            0 <= y < g.rows && 0 <= x < g.cols && !(y == n.y && x == n.x)
                ==> post.visited.at(y, x) == pre.visited.at(y, x),
        post.queue@ == seq![n] + pre.queue@,
        forall|y: int, x: int|
            0 <= y < g.rows && 0 <= x < g.cols && entry.visited.at(y, x) ==> #[trigger] pre.visited.at(y, x),
        forall|i: int|
            0 <= i < entry.queue@.len() - 1 ==> (in_queue(pre.queue@, #[trigger] entry.queue@[i])),
        forall|y: usize, x: usize|
            y < g.rows && x < g.cols && #[trigger] pre.visited.at(y as int, x as int)
                && !entry.visited.at(y as int, x as int) ==> (in_queue(
                pre.queue@,
                GameCoord { x, y },
            )),
        forall|y: usize, x: usize|
            y < g.rows && x < g.cols && #[trigger] pre.visited.at(y as int, x as int) && !in_queue(
                pre.queue@,
                GameCoord { x, y },
            ) && (GameCoord { x, y }) != current ==> (cell_closed(
                pre.visited,
                g,
                y as int,
                x as int,
            )),
    ensures
        forall|y: int, x: int|
            0 <= y < g.rows && 0 <= x < g.cols && entry.visited.at(y, x) ==> #[trigger] post.visited.at(y, x),
        forall|i: int|
            0 <= i < entry.queue@.len() - 1 ==> (in_queue(post.queue@, #[trigger] entry.queue@[i])),
        forall|y: usize, x: usize|
            y < g.rows && x < g.cols && #[trigger] post.visited.at(y as int, x as int)
                && !entry.visited.at(y as int, x as int) ==> (in_queue(
                post.queue@,
                GameCoord { x, y },
            )),
        forall|y: usize, x: usize|
            y < g.rows && x < g.cols && #[trigger] post.visited.at(y as int, x as int)
                && !in_queue(post.queue@, GameCoord { x, y }) && (GameCoord { x, y }) != current
                ==> (cell_closed(post.visited, g, y as int, x as int)),
{
    assert forall|i: int|
        0 <= i < entry.queue@.len() - 1 implies in_queue(
        post.queue@,
        #[trigger] entry.queue@[i],
    ) by {
        lemma_in_queue_push_front(pre.queue@, entry.queue@[i], n);
    }
    assert forall|y: usize, x: usize|
        y < g.rows && x < g.cols && #[trigger] post.visited.at(y as int, x as int)
            && !entry.visited.at(y as int, x as int) implies in_queue(
        post.queue@,
        GameCoord { x, y },
    ) by {
        let c = GameCoord { x, y };
        if c == n {
            assert(post.queue@[0] == n);
        } else {
            assert(pre.visited.at(y as int, x as int));
            assert(in_queue(pre.queue@, c));
            lemma_in_queue_push_front(pre.queue@, c, n);
        }
    }
    assert forall|y: usize, x: usize|
        y < g.rows && x < g.cols && #[trigger] post.visited.at(y as int, x as int) && !in_queue(
            post.queue@,
            GameCoord { x, y },
        ) && GameCoord { x, y } != current implies cell_closed(
        post.visited,
        g,
        y as int,
        x as int,
    ) by {
        let c = GameCoord { x, y };
        assert(post.queue@[0] == n);
        assert(c != n);
        assert(pre.visited.at(y as int, x as int));
        assert(!in_queue(pre.queue@, c)) by {
            if in_queue(pre.queue@, c) {
                lemma_in_queue_push_front(pre.queue@, c, n);
            }
        }
        assert(cell_closed(pre.visited, g, y as int, x as int));
        assert forall|y2: int, x2: int|
            0 <= y2 < g.rows && 0 <= x2 < g.cols && -1 <= y2 - y <= 1 && -1 <= x2 - x <= 1
                && !g.at(y2, x2) implies #[trigger] post.visited.at(y2, x2) by {
            assert(pre.visited.at(y2, x2));
            if !(y2 == n.y && x2 == n.x) {
                assert(post.visited.at(y2, x2) == pre.visited.at(y2, x2));
            }
        }
    }
}

/// Marking one fresh, passable neighbor of an already-expanded cell, with
/// that cell as parent and a strictly larger rank, preserves the search
/// invariant.
proof fn lemma_mark_preserves_inv(
    pre: Search,
    post: Search,
    g: Grid<bool>,
    current: GameCoord,
    n: GameCoord,
)
    requires
        pre.inv(g),
        in_bounds(n, g.rows as int, g.cols as int),
        !pre.visited.at(n.y as int, n.x as int),
        !g.at(n.y as int, n.x as int),
        in_bounds(current, g.rows as int, g.cols as int),
        pre.visited.at(current.y as int, current.x as int),
        pre.rank@.contains_key(current),
        is_step(current, n),
        post.root == pre.root,
        post.visited.wf(),
        post.visited.rows == pre.visited.rows,
        post.visited.cols == pre.visited.cols,
        post.visited.at(n.y as int, n.x as int) == true,
        forall|y: int, x: int|
            0 <= y < g.rows && 0 <= x < g.cols && !(y == n.y && x == n.x)
                ==> post.visited.at(y, x) == pre.visited.at(y, x),
        post.parents.wf(),
        post.parents.rows == pre.parents.rows,
        post.parents.cols == pre.parents.cols,
        post.parents.at(n.y as int, n.x as int) == Some(current),
        forall|y: int, x: int|
            0 <= y < g.rows && 0 <= x < g.cols && !(y == n.y && x == n.x)
                ==> post.parents.at(y, x) == pre.parents.at(y, x),
        post.queue@ == seq![n] + pre.queue@,
        post.rank@ == pre.rank@.insert(n, (pre.rank@[current] + 1) as nat),
    ensures
        post.inv(g),
{
    let rows_i = g.rows as int;
    let cols_i = g.cols as int;
    assert(n != current);
    assert(n != pre.root@);
    assert(post.visited.at(pre.root@.y as int, pre.root@.x as int));
    assert(post.parents.at(pre.root@.y as int, pre.root@.x as int) is None);
    assert forall|y: usize, x: usize|
        y < g.rows && x < g.cols && #[trigger] post.visited.at(y as int, x as int) implies !g.at(
        y as int,
        x as int,
    ) && post.rank@.contains_key(GameCoord { x, y }) by {
        if !(y == n.y && x == n.x) {
            assert(pre.visited.at(y as int, x as int));
        } else {
            assert(GameCoord { x, y } == n);
        }
    }
    assert forall|y: usize, x: usize|
        y < g.rows && x < g.cols && #[trigger] post.visited.at(y as int, x as int) && GameCoord {
            x,
            y,
        } != post.root@ implies {
        let po = post.parents.at(y as int, x as int);
        &&& po is Some
        &&& in_bounds(po->0, rows_i, cols_i)
        &&& post.visited.at(po->0.y as int, po->0.x as int)
        &&& is_step(po->0, GameCoord { x, y })
        &&& post.rank@.contains_key(po->0)
        &&& post.rank@[po->0] < post.rank@[GameCoord { x, y }]
    } by {
        if y == n.y && x == n.x {
            assert(GameCoord { x, y } == n);
            assert(post.parents.at(y as int, x as int) == Some(current));
            assert(post.visited.at(current.y as int, current.x as int));
            assert(post.rank@[current] == pre.rank@[current]);
            assert(post.rank@[n] == pre.rank@[current] + 1);
        } else {
            let c = GameCoord { x, y };
            assert(pre.visited.at(y as int, x as int));
            let po = pre.parents.at(y as int, x as int);
            assert(post.parents.at(y as int, x as int) == po);
            assert(pre.visited.at(po->0.y as int, po->0.x as int));
            assert(po->0 != n);
            assert(post.visited.at(po->0.y as int, po->0.x as int));
            assert(post.rank@[po->0] == pre.rank@[po->0]);
            assert(post.rank@[c] == pre.rank@[c]);
        }
    }
    assert forall|c: GameCoord| post.rank@.contains_key(c) implies in_bounds(c, rows_i, cols_i)
        && post.visited.at(c.y as int, c.x as int) by {
        if c != n {
            assert(pre.rank@.contains_key(c));
            assert(pre.visited.at(c.y as int, c.x as int));
            assert(!(c.y == n.y && c.x == n.x));
        }
    }
    assert forall|i: int| 0 <= i < post.queue@.len() implies in_bounds(
        #[trigger] post.queue@[i],
        rows_i,
        cols_i,
    ) && post.visited.at(post.queue@[i].y as int, post.queue@[i].x as int) by {
        if i > 0 {
            assert(post.queue@[i] == pre.queue@[i - 1]);
            assert(pre.visited.at(pre.queue@[i - 1].y as int, pre.queue@[i - 1].x as int));
            let q = pre.queue@[i - 1];
            assert(!(q.y == n.y && q.x == n.x));
            assert(post.visited.at(q.y as int, q.x as int));
        }
    }
}

impl Search {
    /// Everything the expansion rounds preserve: grids match the obstacle
    /// grid's shape; visited cells are passable; every visited cell but the
    /// root has a visited neighbor as parent, discovered strictly earlier;
    /// queued cells are visited.
    pub open spec fn inv(&self, g: Grid<bool>) -> bool {
        let rows = g.rows as int;
        let cols = g.cols as int;
        &&& g.wf()
        &&& self.visited.wf()
        &&& self.visited.rows == g.rows
        &&& self.visited.cols == g.cols
        &&& self.parents.wf()
        &&& self.parents.rows == g.rows
        &&& self.parents.cols == g.cols
        &&& in_bounds(self.root@, rows, cols)
        &&& passable(g, self.root@)
        &&& self.visited.at(self.root@.y as int, self.root@.x as int)
        &&& self.parents.at(self.root@.y as int, self.root@.x as int) is None
        &&& forall|y: usize, x: usize|
            y < g.rows && x < g.cols && #[trigger] self.visited.at(y as int, x as int) ==> !g.at(
                y as int,
                x as int,
            ) && self.rank@.contains_key(GameCoord { x, y })
        &&& forall|y: usize, x: usize|
            y < g.rows && x < g.cols && #[trigger] self.visited.at(y as int, x as int)
                && GameCoord { x, y } != self.root@ ==> {
                let po = self.parents.at(y as int, x as int);
                &&& po is Some
                &&& in_bounds(po->0, rows, cols)
                &&& self.visited.at(po->0.y as int, po->0.x as int)
                &&& is_step(po->0, GameCoord { x, y })
                &&& self.rank@.contains_key(po->0)
                &&& self.rank@[po->0] < self.rank@[GameCoord { x, y }]
            }
        &&& forall|c: GameCoord|
            #[trigger] self.rank@.contains_key(c) ==> in_bounds(c, rows, cols) && self.visited.at(
                c.y as int,
                c.x as int,
            )
        &&& forall|i: int|
            0 <= i < self.queue@.len() ==> in_bounds(#[trigger] self.queue@[i], rows, cols)
                && self.visited.at(self.queue@[i].y as int, self.queue@[i].x as int)
    }

    /// Termination measure of the search: unvisited cells weigh two, queued
    /// cells one; every expansion round lowers it.
    pub open spec fn measure(&self) -> int {
        2 * count_false(self.visited.cells@) + self.queue@.len() as int
    }

    /// A fresh search rooted at `root`: only the root is visited and queued.
    pub fn new(root: GameCoord, g: &Grid<bool>) -> (r: Self)
        requires
            g.wf(),
            in_bounds(root, g.rows as int, g.cols as int),
            passable(*g, root),
        ensures
            r.inv(*g),
            r.root@ == root,
            r.queue@.len() == 1,
            frontier_closed(r, *g),
    {
        let mut visited: Grid<bool> = Grid::new(g.rows, g.cols, false);
        let parents: Grid<Option<GameCoord>> = Grid::new(g.rows, g.cols, None);
        let mut queue: VecDeque<GameCoord> = VecDeque::new();
        visited.set(root.y, root.x, true);
        queue.push_back(root);
        let rank: Ghost<Map<GameCoord, nat>> = Ghost(Map::empty().insert(root, 0));
        let r = Self { visited, parents, queue, root: Ghost(root), rank };
        proof {
            assert forall|y: usize, x: usize|
                y < g.rows && x < g.cols && #[trigger] r.visited.at(y as int, x as int)
                    && !in_queue(r.queue@, GameCoord { x, y }) implies cell_closed(
                r.visited,
                *g,
                y as int,
                x as int,
            ) by {
                if (GameCoord { x, y }) == root {
                    assert(r.queue@[0] == root);
                } else {
                    assert(!(y == root.y && x == root.x));
                }
            }
        }
        r
    }

    /// Expand one queued cell: mark each of its unvisited, passable
    /// neighbors, record the cell as their parent, and queue them. Returns
    /// false, changing nothing, when the queue is empty. The frontier
    /// closure carries over: the expanded cell ends fully closed, and every
    /// cell discovered in the round is queued.
    #[verifier::loop_isolation(false)]
    #[verifier::rlimit(100)]
    pub fn expand(&mut self, g: &Grid<bool>) -> (r: bool)
        requires
            old(self).inv(*g),
            frontier_closed(*old(self), *g),
        ensures
            final(self).inv(*g),
            frontier_closed(*final(self), *g),
            final(self).root == old(self).root,
            r == (old(self).queue@.len() > 0),
            !r ==> final(self).visited == old(self).visited && final(self).parents == old(
                self,
            ).parents && final(self).queue@ == old(self).queue@ && final(self).rank == old(
                self,
            ).rank,
            r ==> final(self).measure() < old(self).measure(),
    {
        let current = match self.queue.pop_back() {
            Some(value) => value,
            None => {
                return false;
            },
        };
        let rows = g.rows;
        let cols = g.cols;
        let ghost entry_measure = 2 * count_false(self.visited.cells@) + self.queue@.len() as int;

        let y0 = if current.y > 0 {
            current.y - 1
        } else {
            0
        };
        let y1 = if current.y + 1 < rows {
            current.y + 1
        } else {
            rows - 1
        };
        let x0 = if current.x > 0 {
            current.x - 1
        } else {
            0
        };
        let x1 = if current.x + 1 < cols {
            current.x + 1
        } else {
            cols - 1
        };

        proof {
            assert forall|i: int|
                0 <= i < old(self).queue@.len() - 1 implies (in_queue(
                self.queue@,
                #[trigger] old(self).queue@[i],
            )) by {
                assert(self.queue@[i] == old(self).queue@[i]);
            }
            assert forall|y: usize, x: usize|
                y < g.rows && x < g.cols && #[trigger] self.visited.at(y as int, x as int)
                    && !in_queue(self.queue@, GameCoord { x, y }) && (GameCoord { x, y })
                    != current implies (cell_closed(self.visited, *g, y as int, x as int)) by {
                let c = GameCoord { x, y };
                assert(!in_queue(old(self).queue@, c)) by {
                    if in_queue(old(self).queue@, c) {
                        let j = choose|j: int|
                            0 <= j < old(self).queue@.len() && old(self).queue@[j] == c;
                        if j < old(self).queue@.len() - 1 {
                            assert(self.queue@[j] == c);
                        } else {
                            assert(old(self).queue@[j] == current);
                        }
                    }
                }
            }
        }

        let mut row = y0;
        while row <= y1
            invariant
                y0 <= row,
                self.inv(*g),
                self.root == old(self).root,
                self.visited.at(current.y as int, current.x as int),
                self.rank@.contains_key(current),
                2 * count_false(self.visited.cells@) + self.queue@.len() as int <= entry_measure,
                forall|y: int, x: int|
                    0 <= y < g.rows && 0 <= x < g.cols && old(self).visited.at(y, x)
                        ==> #[trigger] self.visited.at(y, x),
                forall|i: int|
                    0 <= i < old(self).queue@.len() - 1 ==> (in_queue(
                        self.queue@,
                        #[trigger] old(self).queue@[i],
                    )),
                forall|y: usize, x: usize|
                    y < g.rows && x < g.cols && #[trigger] self.visited.at(y as int, x as int)
                        && !old(self).visited.at(y as int, x as int) ==> (in_queue(
                        self.queue@,
                        GameCoord { x, y },
                    )),
                forall|y: usize, x: usize|
                    y < g.rows && x < g.cols && #[trigger] self.visited.at(y as int, x as int)
                        && !in_queue(self.queue@, GameCoord { x, y }) && (GameCoord { x, y })
                        != current ==> (cell_closed(self.visited, *g, y as int, x as int)),
                forall|y2: int, x2: int|
                    y0 <= y2 < row && x0 <= x2 <= x1 ==> (#[trigger] g.at(y2, x2))
                        || self.visited.at(y2, x2),
            decreases y1 + 1 - row,
        {
            let mut col = x0;
            while col <= x1
                invariant
                    x0 <= col,
                    row <= y1,
                    self.inv(*g),
                    self.root == old(self).root,
                    self.visited.at(current.y as int, current.x as int),
                    self.rank@.contains_key(current),
                    2 * count_false(self.visited.cells@) + self.queue@.len() as int <= entry_measure,
                    forall|y: int, x: int|
                        0 <= y < g.rows && 0 <= x < g.cols && old(self).visited.at(y, x)
                            ==> #[trigger] self.visited.at(y, x),
                    forall|i: int|
                        0 <= i < old(self).queue@.len() - 1 ==> (in_queue(
                            self.queue@,
                            #[trigger] old(self).queue@[i],
                        )),
                    forall|y: usize, x: usize|
                        y < g.rows && x < g.cols && #[trigger] self.visited.at(y as int, x as int)
                            && !old(self).visited.at(y as int, x as int) ==> (in_queue(
                            self.queue@,
                            GameCoord { x, y },
                        )),
                    forall|y: usize, x: usize|
                        y < g.rows && x < g.cols && #[trigger] self.visited.at(y as int, x as int)
                            && !in_queue(self.queue@, GameCoord { x, y }) && (GameCoord { x, y })
                            != current ==> (cell_closed(self.visited, *g, y as int, x as int)),
                    forall|y2: int, x2: int|
                        y0 <= y2 < row && x0 <= x2 <= x1 ==> (#[trigger] g.at(y2, x2))
                            || self.visited.at(y2, x2),
                    forall|x2: int|
                        x0 <= x2 < col ==> (#[trigger] g.at(row as int, x2)) || self.visited.at(
                            row as int,
                            x2,
                        ),
                decreases x1 + 1 - col,
            {
                if !self.visited.get(row, col) && !g.get(row, col) {
                    let ghost pre = *self;
                    proof {
                        crate::grid::lemma_flat_index(
                            row as int,
                            col as int,
                            g.rows as int,
                            g.cols as int,
                        );
                        lemma_count_false_update(
                            self.visited.cells@,
                            row as int * g.cols as int + col as int,
                        );
                    }
                    self.visited.set(row, col, true);
                    self.parents.set(row, col, Some(current));
                    self.queue.push_front(GameCoord { x: col, y: row });
                    proof {
                        self.rank@ = pre.rank@.insert(
                            GameCoord { x: col, y: row },
                            (pre.rank@[current] + 1) as nat,
                        );
                        lemma_mark_preserves_inv(
                            pre,
                            *self,
                            *g,
                            current,
                            GameCoord { x: col, y: row },
                        );
                        lemma_mark_preserves_closure(
                            *old(self),
                            pre,
                            *self,
                            *g,
                            current,
                            GameCoord { x: col, y: row },
                        );
                    }
                }
                col = col + 1;
            }
            row = row + 1;
        }
        proof {
            assert forall|y: usize, x: usize|
                y < g.rows && x < g.cols && #[trigger] self.visited.at(y as int, x as int)
                    && !in_queue(self.queue@, GameCoord { x, y }) implies cell_closed(
                self.visited,
                *g,
                y as int,
                x as int,
            ) by {
                let c = GameCoord { x, y };
                if c == current {
                    assert forall|y2: int, x2: int|
                        0 <= y2 < g.rows && 0 <= x2 < g.cols && -1 <= y2 - y <= 1 && -1 <= x2 - x
                            <= 1 && !g.at(y2, x2) implies #[trigger] self.visited.at(y2, x2) by {
                        assert(y0 <= y2 <= y1 && x0 <= x2 <= x1);
                    }
                }
            }
        }
        true
    }
}

/// Scan two visited grids of equal shape for a cell marked by both; when
/// none comes back, no cell at all is marked by both.
pub fn is_intersecting(v1: &Grid<bool>, v2: &Grid<bool>) -> (r: Option<GameCoord>)
    requires
        v1.wf(),
        v2.wf(),
        v1.rows == v2.rows,
        v1.cols == v2.cols,
    ensures
        r matches Some(c) ==> in_bounds(c, v1.rows as int, v1.cols as int) && v1.at(
            c.y as int,
            c.x as int,
        ) && v2.at(c.y as int, c.x as int),
        r is None ==> (forall|y: int, x: int|
            0 <= y < v1.rows && 0 <= x < v1.cols ==> !((#[trigger] v1.at(y, x)) && v2.at(y, x))),
{
    let mut row: usize = 0;
    while row < v1.rows
        invariant
            v1.wf(),
            v2.wf(),
            v1.rows == v2.rows,
            v1.cols == v2.cols,
            row <= v1.rows,
            forall|y: int, x: int|
                0 <= y < row && 0 <= x < v1.cols ==> !((#[trigger] v1.at(y, x)) && v2.at(y, x)),
        decreases v1.rows - row,
    {
        let mut col: usize = 0;
        while col < v1.cols
            invariant
                v1.wf(),
                v2.wf(),
                v1.rows == v2.rows,
                v1.cols == v2.cols,
                row < v1.rows,
                col <= v1.cols,
                forall|y: int, x: int|
                    0 <= y < row && 0 <= x < v1.cols ==> !((#[trigger] v1.at(y, x)) && v2.at(
                        y,
                        x,
                    )),
                forall|x: int|
                    0 <= x < col ==> !((#[trigger] v1.at(row as int, x)) && v2.at(row as int, x)),
            decreases v1.cols - col,
        {
            if v1.get(row, col) && v2.get(row, col) {
                return Some(GameCoord { x: col, y: row });
            }
            col = col + 1;
        }
        row = row + 1;
    }
    None
}

/// Rebuild the full path once the two searches meet: walk forward parents
/// from the meeting point back to the start (prepending), then backward
/// parents from the meeting point to the end (appending).
fn reconstruct(
    forw: &Search,
    back: &Search,
    g: &Grid<bool>,
    meeting: GameCoord,
    start: GameCoord,
    end: GameCoord,
) -> (path: VecDeque<GameCoord>)
    requires
        forw.inv(*g),
        back.inv(*g),
        forw.root@ == start,
        back.root@ == end,
        in_bounds(meeting, g.rows as int, g.cols as int),
        forw.visited.at(meeting.y as int, meeting.x as int),
        back.visited.at(meeting.y as int, meeting.x as int),
    ensures
        path_ok(path@, *g, start, end),
{
    let mut path: VecDeque<GameCoord> = VecDeque::new();
    let mut current = meeting;
    loop
        invariant_except_break
            forw.inv(*g),
            forw.root@ == start,
            in_bounds(meeting, g.rows as int, g.cols as int),
            in_bounds(current, g.rows as int, g.cols as int),
            forw.visited.at(current.y as int, current.x as int),
            path@.len() == 0 ==> current == meeting,
            path@.len() > 0 ==> path@[path@.len() - 1] == meeting && is_step(current, path@[0]),
            seg_ok(path@, *g),
        ensures
            path@.len() >= 1,
            path@[0] == start,
            path@[path@.len() - 1] == meeting,
            seg_ok(path@, *g),
        decreases forw.rank@[current],
    {
        path.push_front(current);
        if current == start {
            break;
        }
        let po = forw.parents.get(current.y, current.x);
        current = po.unwrap();
    }

    let po = back.parents.get(meeting.y, meeting.x);
    if po.is_some() {
        let mut current = po.unwrap();
        loop
            invariant_except_break
                back.inv(*g),
                back.root@ == end,
                in_bounds(current, g.rows as int, g.cols as int),
                back.visited.at(current.y as int, current.x as int),
                path@.len() >= 1,
                path@[0] == start,
                is_step(path@[path@.len() - 1], current),
                seg_ok(path@, *g),
            ensures
                path@.len() >= 1,
                path@[0] == start,
                path@[path@.len() - 1] == end,
                seg_ok(path@, *g),
            decreases back.rank@[current],
        {
            path.push_back(current);
            if current == end {
                break;
            }
            let po2 = back.parents.get(current.y, current.x);
            current = po2.unwrap();
        }
    }
    path
}

/// Bidirectional breadth-first search from `start` to `end` over the
/// obstacle grid. Any returned path is a well-formed obstacle-free path
/// between the two cells; and the no-path signal comes back only when no
/// such path exists at all: a frontier's queue can only empty once its
/// whole component is explored, and the roots sit in each other's reach
/// exactly when the components are one.
pub fn bds(start: GameCoord, end: GameCoord, obstacles: &Grid<bool>) -> (r: Option<
    VecDeque<GameCoord>,
>)
    requires
        obstacles.wf(),
        in_bounds(start, obstacles.rows as int, obstacles.cols as int),
        in_bounds(end, obstacles.rows as int, obstacles.cols as int),
        passable(*obstacles, start),
        passable(*obstacles, end),
    ensures
        r matches Some(p) ==> path_ok(p@, *obstacles, start, end),
        r is None ==> (forall|p: Seq<GameCoord>| !path_ok(p, *obstacles, start, end)),
{
    let mut forw = Search::new(start, obstacles);
    let mut back = Search::new(end, obstacles);

    while forw.queue.len() > 0 && back.queue.len() > 0
        invariant
            forw.inv(*obstacles),
            back.inv(*obstacles),
            frontier_closed(forw, *obstacles),
            frontier_closed(back, *obstacles),
            forw.root@ == start,
            back.root@ == end,
        decreases forw.measure() + back.measure(),
    {
        if let Some(meeting) = is_intersecting(&forw.visited, &back.visited) {
            return Some(reconstruct(&forw, &back, obstacles, meeting, start, end));
        }

        if !forw.expand(obstacles) {
            return None;
        }
        if !back.expand(obstacles) {
            return None;
        }
    }

    // One frontier has emptied; its visited set is closed. A last scan
    // settles whether the searches already met.
    if let Some(meeting) = is_intersecting(&forw.visited, &back.visited) {
        return Some(reconstruct(&forw, &back, obstacles, meeting, start, end));
    }
    proof {
        let rows = obstacles.rows as int;
        let cols = obstacles.cols as int;
        assert forall|p: Seq<GameCoord>| !path_ok(p, *obstacles, start, end) by {
            if path_ok(p, *obstacles, start, end) {
                if forw.queue@.len() == 0 {
                    assert forall|y: usize, x: usize|
                        y < obstacles.rows && x < obstacles.cols && #[trigger] forw.visited.at(
                            y as int,
                            x as int,
                        ) implies cell_closed(forw.visited, *obstacles, y as int, x as int) by {
                        assert(!in_queue(forw.queue@, GameCoord { x, y }));
                    }
                    lemma_closed_reaches_last(forw.visited, *obstacles, p);
                    assert(forw.visited.at(end.y as int, end.x as int));
                    assert(back.visited.at(end.y as int, end.x as int));
                    assert(!(forw.visited.at(end.y as int, end.x as int) && back.visited.at(
                        end.y as int,
                        end.x as int,
                    )));
                } else {
                    assert(back.queue@.len() == 0);
                    assert forall|y: usize, x: usize|
                        y < obstacles.rows && x < obstacles.cols && #[trigger] back.visited.at(
                            y as int,
                            x as int,
                        ) implies cell_closed(back.visited, *obstacles, y as int, x as int) by {
                        assert(!in_queue(back.queue@, GameCoord { x, y }));
                    }
                    lemma_closed_reaches_first(back.visited, *obstacles, p);
                    assert(back.visited.at(start.y as int, start.x as int));
                    assert(forw.visited.at(start.y as int, start.x as int));
                    assert(!(forw.visited.at(start.y as int, start.x as int) && back.visited.at(
                        start.y as int,
                        start.x as int,
                    )));
                }
            }
        }
    }
    None
}

} // verus!
