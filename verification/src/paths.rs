//! Walkable paths over the floor of a map.

use crate::map::GridMap;
use vstd::prelude::*;

verus! {

/// Two cells are adjacent when they differ by one step along one axis.
pub open spec fn adjacent(a: (int, int), b: (int, int)) -> bool {
    ||| (a.0 == b.0 && (a.1 == b.1 + 1 || a.1 + 1 == b.1))
    ||| (a.1 == b.1 && (a.0 == b.0 + 1 || a.0 + 1 == b.0))
}

/// Whether `v` lies between `a` and `b`, whichever of them is the larger.
pub open spec fn between(a: int, b: int, v: int) -> bool {
    (a <= v <= b) || (b <= v <= a)
}

/// The cells of the bent corridor from `a` to `b`: one run along a row and
/// one along a column, the row first when `horizontal_first` is set.
pub open spec fn on_corridor(a: (int, int), b: (int, int), horizontal_first: bool, x: int, y: int) -> bool {
    if horizontal_first {
        (y == a.1 && between(a.0, b.0, x)) || (x == b.0 && between(a.1, b.1, y))
    } else {
        (x == a.0 && between(a.1, b.1, y)) || (y == b.1 && between(a.0, b.0, x))
    }
}

impl GridMap {
    /// A non-empty walk over floor cells in which each cell is adjacent to
    /// the next.
    pub open spec fn floor_path(&self, path: Seq<(int, int)>) -> bool {
        &&& path.len() > 0
        &&& forall|i: int| 0 <= i < path.len() ==> self.is_floor((#[trigger] path[i]).0, path[i].1)
        &&& forall|i: int| 0 <= i < path.len() - 1 ==> adjacent(#[trigger] path[i], path[i + 1])
    }

    /// Whether `b` can be reached from `a` over floor cells alone.
    pub open spec fn connected(&self, a: (int, int), b: (int, int)) -> bool {
        exists|path: Seq<(int, int)>| #[trigger]
            self.floor_path(path) && path[0] == a && path.last() == b
    }

    /// Whether every floor cell of `self` is a floor cell of `later`.
    pub open spec fn floor_kept_by(&self, later: &GridMap) -> bool {
        &&& self.width == later.width
        &&& self.height == later.height
        &&& forall|x: int, y: int| #[trigger] self.is_floor(x, y) ==> later.is_floor(x, y)
    }
}

/// A floor cell is connected to itself.
pub proof fn lemma_connected_self(map: &GridMap, a: (int, int))
    requires
        map.is_floor(a.0, a.1),
    ensures
        map.connected(a, a),
{
    let path = seq![a];
    assert(path[0] == a);
    assert(map.floor_path(path));
}

/// Connection is transitive.
pub proof fn lemma_connected_trans(map: &GridMap, a: (int, int), b: (int, int), c: (int, int))
    requires
        map.connected(a, b),
        map.connected(b, c),
    ensures
        map.connected(a, c),
{
    let p = choose|path: Seq<(int, int)>| #[trigger]
        map.floor_path(path) && path[0] == a && path.last() == b;
    let q = choose|path: Seq<(int, int)>| #[trigger]
        map.floor_path(path) && path[0] == b && path.last() == c;
    let r = p.drop_last() + q;
    assert forall|i: int| 0 <= i < r.len() implies map.is_floor((#[trigger] r[i]).0, r[i].1) by {
        if i < p.len() - 1 {
            assert(r[i] == p[i]);
        } else {
            assert(r[i] == q[i - (p.len() - 1)]);
        }
    }
    assert forall|i: int| 0 <= i < r.len() - 1 implies adjacent(#[trigger] r[i], r[i + 1]) by {
        if i < p.len() - 2 {
            assert(r[i] == p[i]);
            assert(r[i + 1] == p[i + 1]);
        } else if i == p.len() - 2 {
            assert(r[i] == p[i]);
            assert(r[i + 1] == q[0]);
            assert(p[i + 1] == b);
        } else {
            assert(r[i] == q[i - (p.len() - 1)]);
            assert(r[i + 1] == q[i - (p.len() - 1) + 1]);
        }
    }
    assert(r[0] == a) by {
        if p.len() == 1 {
            assert(r[0] == q[0]);
        } else {
            assert(r[0] == p[0]);
        }
    }
    assert(r.last() == c) by {
        assert(r[r.len() - 1] == q[q.len() - 1]);
    }
    assert(map.floor_path(r));
}

/// Connection is symmetric.
pub proof fn lemma_connected_sym(map: &GridMap, a: (int, int), b: (int, int))
    requires
        map.connected(a, b),
    ensures
        map.connected(b, a),
{
    let p = choose|path: Seq<(int, int)>| #[trigger]
        map.floor_path(path) && path[0] == a && path.last() == b;
    let r = Seq::new(p.len(), |i: int| p[p.len() - 1 - i]);
    assert forall|i: int| 0 <= i < r.len() - 1 implies adjacent(#[trigger] r[i], r[i + 1]) by {
        assert(adjacent(p[p.len() - 2 - i], p[p.len() - 2 - i + 1]));
    }
    assert(map.floor_path(r));
    assert(r[0] == b && r.last() == a);
}

/// Turning more cells to floor keeps every connection.
pub proof fn lemma_connected_kept(map: &GridMap, later: &GridMap, a: (int, int), b: (int, int))
    requires
        map.floor_kept_by(later),
        map.connected(a, b),
    ensures
        later.connected(a, b),
{
    let p = choose|path: Seq<(int, int)>| #[trigger]
        map.floor_path(path) && path[0] == a && path.last() == b;
    assert forall|i: int| 0 <= i < p.len() implies later.is_floor((#[trigger] p[i]).0, p[i].1) by {
        assert(map.is_floor(p[i].0, p[i].1));
    }
    assert(later.floor_path(p));
}

/// The ends of a run of floor along a row are connected.
pub proof fn lemma_row_connected(map: &GridMap, xa: int, xb: int, y: int)
    requires
        forall|x: int| between(xa, xb, x) ==> map.is_floor(x, y),
    ensures
        map.connected((xa, y), (xb, y)),
    decreases
            if xa <= xb {
                xb - xa
            } else {
                xa - xb
            },
{
    assert(between(xa, xb, xa));
    if xa == xb {
        lemma_connected_self(map, (xa, y));
    } else {
        let next = if xa < xb {
            xa + 1
        } else {
            xa - 1
        };
        assert forall|x: int| between(next, xb, x) implies map.is_floor(x, y) by {
            assert(between(xa, xb, x));
        }
        lemma_row_connected(map, next, xb, y);
        let step = seq![(xa, y), (next, y)];
        assert(between(xa, xb, next));
        assert(step[0] == (xa, y) && step[1] == (next, y));
        assert(map.floor_path(step));
        assert(step.last() == (next, y));
        assert(map.connected((xa, y), (next, y)));
        lemma_connected_trans(map, (xa, y), (next, y), (xb, y));
    }
}

/// The ends of a run of floor along a column are connected.
pub proof fn lemma_column_connected(map: &GridMap, x: int, ya: int, yb: int)
    requires
        forall|y: int| between(ya, yb, y) ==> map.is_floor(x, y),
    ensures
        map.connected((x, ya), (x, yb)),
    decreases
            if ya <= yb {
                yb - ya
            } else {
                ya - yb
            },
{
    assert(between(ya, yb, ya));
    if ya == yb {
        lemma_connected_self(map, (x, ya));
    } else {
        let next = if ya < yb {
            ya + 1
        } else {
            ya - 1
        };
        assert forall|y: int| between(next, yb, y) implies map.is_floor(x, y) by {
            assert(between(ya, yb, y));
        }
        lemma_column_connected(map, x, next, yb);
        let step = seq![(x, ya), (x, next)];
        assert(between(ya, yb, next));
        assert(step[0] == (x, ya) && step[1] == (x, next));
        assert(map.floor_path(step));
        assert(step.last() == (x, next));
        assert(map.connected((x, ya), (x, next)));
        lemma_connected_trans(map, (x, ya), (x, next), (x, yb));
    }
}

/// A bent corridor whose cells are all floor connects its two ends.
pub proof fn lemma_corridor_connected(map: &GridMap, a: (int, int), b: (int, int), horizontal_first: bool)
    requires
        forall|x: int, y: int| on_corridor(a, b, horizontal_first, x, y) ==> map.is_floor(x, y),
    ensures
        map.connected(a, b),
{
    if horizontal_first {
        assert forall|x: int| between(a.0, b.0, x) implies map.is_floor(x, a.1) by {
            assert(on_corridor(a, b, horizontal_first, x, a.1));
        }
        lemma_row_connected(map, a.0, b.0, a.1);
        assert forall|y: int| between(a.1, b.1, y) implies map.is_floor(b.0, y) by {
            assert(on_corridor(a, b, horizontal_first, b.0, y));
        }
        lemma_column_connected(map, b.0, a.1, b.1);
        lemma_connected_trans(map, a, (b.0, a.1), b);
    } else {
        assert forall|y: int| between(a.1, b.1, y) implies map.is_floor(a.0, y) by {
            assert(on_corridor(a, b, horizontal_first, a.0, y));
        }
        lemma_column_connected(map, a.0, a.1, b.1);
        assert forall|x: int| between(a.0, b.0, x) implies map.is_floor(x, b.1) by {
            assert(on_corridor(a, b, horizontal_first, x, b.1));
        }
        lemma_row_connected(map, a.0, b.0, b.1);
        lemma_connected_trans(map, a, (a.0, b.1), b);
    }
}

} // verus!
