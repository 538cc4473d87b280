use vstd::prelude::*;
use crate::tile::Grid;

verus! {

/// `a` and `b` are orthogonal neighbours.
pub open spec fn neighbours(a: (int, int), b: (int, int)) -> bool {
    ||| a.0 == b.0 && (a.1 - b.1 == 1 || b.1 - a.1 == 1)
    ||| a.1 == b.1 && (a.0 - b.0 == 1 || b.0 - a.0 == 1)
}

/// A non-empty sequence of open cells, each a neighbour of the next.
pub open spec fn is_walk(g: &Grid, p: Seq<(int, int)>) -> bool {
    &&& p.len() > 0
    &&& forall|i: int| 0 <= i < p.len() ==> g.open_at((#[trigger] p[i]).0, p[i].1)
    &&& forall|i: int| 0 <= i < p.len() - 1 ==> neighbours(#[trigger] p[i], p[i + 1])
}

/// One can walk on open cells from `a` to `b`.
pub open spec fn connected(g: &Grid, a: (int, int), b: (int, int)) -> bool {
    exists|p: Seq<(int, int)>| is_walk(g, p) && p[0] == a && p.last() == b
}

/// A walk stays a walk when no open cell is closed.
pub proof fn lemma_connected_kept(g1: &Grid, g2: &Grid, a: (int, int), b: (int, int))
    requires
        connected(g1, a, b),
        g1.keeps_open(g2),
    ensures
        connected(g2, a, b),
{
    let p = choose|p: Seq<(int, int)>| is_walk(g1, p) && p[0] == a && p.last() == b;
    assert forall|i: int| 0 <= i < p.len() implies g2.open_at((#[trigger] p[i]).0, p[i].1) by {
        assert(g1.open_at(p[i].0, p[i].1));
    }
    assert(is_walk(g2, p));
}

/// A walk can be taken backwards.
pub proof fn lemma_connected_symmetric(g: &Grid, a: (int, int), b: (int, int))
    requires
        connected(g, a, b),
    ensures
        connected(g, b, a),
{
    let p = choose|p: Seq<(int, int)>| is_walk(g, p) && p[0] == a && p.last() == b;
    let r = p.reverse();
    assert forall|i: int| 0 <= i < r.len() implies g.open_at((#[trigger] r[i]).0, r[i].1) by {
        assert(r[i] == p[p.len() - 1 - i]);
    }
    assert forall|i: int| 0 <= i < r.len() - 1 implies neighbours(#[trigger] r[i], r[i + 1]) by {
        assert(r[i] == p[p.len() - 1 - i]);
        assert(r[i + 1] == p[p.len() - 2 - i]);
        assert(neighbours(p[p.len() - 2 - i], p[p.len() - 1 - i]));
    }
    assert(r[0] == b);
    assert(r.last() == a);
    assert(is_walk(g, r));
}

/// Walks join end to end.
pub proof fn lemma_connected_trans(g: &Grid, a: (int, int), b: (int, int), c: (int, int))
    requires
        connected(g, a, b),
        connected(g, b, c),
    ensures
        connected(g, a, c),
{
    let p = choose|p: Seq<(int, int)>| is_walk(g, p) && p[0] == a && p.last() == b;
    let q = choose|q: Seq<(int, int)>| is_walk(g, q) && q[0] == b && q.last() == c;
    let r = p + q.subrange(1, q.len() as int);
    assert forall|i: int| 0 <= i < r.len() implies g.open_at((#[trigger] r[i]).0, r[i].1) by {
        if i >= p.len() {
            assert(r[i] == q[i - p.len() + 1]);
        } else {
            assert(r[i] == p[i]);
        }
    }
    assert forall|i: int| 0 <= i < r.len() - 1 implies neighbours(#[trigger] r[i], r[i + 1]) by {
        if i >= p.len() {
            assert(r[i] == q[i - p.len() + 1]);
            assert(r[i + 1] == q[i - p.len() + 2]);
        } else if i == p.len() - 1 {
            assert(r[i] == p.last());
            assert(r[i + 1] == q[1]);
        } else {
            assert(r[i] == p[i]);
            assert(r[i + 1] == p[i + 1]);
        }
    }
    if q.len() == 1 {
        assert(r.last() == p.last());
    } else {
        assert(r.last() == q.last());
    }
    assert(is_walk(g, r));
}

/// A fully open stretch of row `y` joins its two ends.
pub proof fn lemma_row_connected(g: &Grid, y: int, xa: int, xb: int)
    requires
        forall|x: int|
            (xa <= x <= xb || xb <= x <= xa) ==> #[trigger] g.open_at(x, y),
    ensures
        connected(g, (xa, y), (xb, y)),
{
    if xa <= xb {
        let p = Seq::new((xb - xa + 1) as nat, |i: int| (xa + i, y));
        assert forall|i: int| 0 <= i < p.len() implies g.open_at((#[trigger] p[i]).0, p[i].1) by {
            assert(g.open_at(xa + i, y));
        }
        assert(p.last() == (xb, y));
        assert(is_walk(g, p));
    } else {
        let p = Seq::new((xa - xb + 1) as nat, |i: int| (xa - i, y));
        assert forall|i: int| 0 <= i < p.len() implies g.open_at((#[trigger] p[i]).0, p[i].1) by {
            assert(g.open_at(xa - i, y));
        }
        assert(p.last() == (xb, y));
        assert(is_walk(g, p));
    }
}

/// A fully open stretch of column `x` joins its two ends.
pub proof fn lemma_column_connected(g: &Grid, x: int, ya: int, yb: int)
    requires
        forall|y: int|
            (ya <= y <= yb || yb <= y <= ya) ==> #[trigger] g.open_at(x, y),
    ensures
        connected(g, (x, ya), (x, yb)),
{
    if ya <= yb {
        let p = Seq::new((yb - ya + 1) as nat, |i: int| (x, ya + i));
        assert forall|i: int| 0 <= i < p.len() implies g.open_at((#[trigger] p[i]).0, p[i].1) by {
            assert(g.open_at(x, ya + i));
        }
        assert(p.last() == (x, yb));
        assert(is_walk(g, p));
    } else {
        let p = Seq::new((ya - yb + 1) as nat, |i: int| (x, ya - i));
        assert forall|i: int| 0 <= i < p.len() implies g.open_at((#[trigger] p[i]).0, p[i].1) by {
            assert(g.open_at(x, ya - i));
        }
        assert(p.last() == (x, yb));
        assert(is_walk(g, p));
    }
}

} // verus!
