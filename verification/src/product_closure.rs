//! The product facts of a body are closed under chaining: after the closure,
//! two distinct locals are related exactly when a chain of direct relations,
//! each recorded by an assignment, leads from the first to the second.

use vstd::prelude::*;

use crate::locals::{
    BinOp, Operand, Place, Rvalue, Local, blocks_view, body_statements, body_wf, closure, initial_product, is_square, product_scan,
    relax, relax_pivot, relax_row, set_rel, spec_body_products, spec_direct_products,
    statement_in_bounds, Body, Statement,
};

verus! {

/// Step `t` of `path` is a direct relation of `g`.
pub open spec fn step_related(g: Seq<Seq<Option<bool>>>, path: Seq<int>, t: int) -> bool {
    g[path[t]][path[t + 1]] is Some
}

/// `path` is a chain of at least one step through `g` whose interior locals are
/// all below `b`.
pub open spec fn is_chain_below(g: Seq<Seq<Option<bool>>>, path: Seq<int>, b: int) -> bool {
    &&& path.len() >= 2
    &&& forall|t: int| 0 <= t < path.len() ==> 0 <= #[trigger] path[t] < g.len()
    &&& forall|t: int| 0 <= t < path.len() - 1 ==> #[trigger] step_related(g, path, t)
    &&& forall|t: int| 0 < t < path.len() - 1 ==> #[trigger] path[t] < b
}

/// Some chain through `g` with interior locals below `b` leads from `x` to `y`.
pub open spec fn chain_below(g: Seq<Seq<Option<bool>>>, b: int, x: int, y: int) -> bool {
    exists|path: Seq<int>| #[trigger] is_chain_below(g, path, b) && path[0] == x && path.last() == y
}

/// Some chain of direct relations through `g` leads from `x` to `y`.
pub open spec fn chained(g: Seq<Seq<Option<bool>>>, x: int, y: int) -> bool {
    chain_below(g, g.len() as int, x, y)
}

proof fn lemma_chain_base(g: Seq<Seq<Option<bool>>>, n: nat, x: int, y: int)
    requires
        is_square(g, n),
        0 <= x < n,
        0 <= y < n,
    ensures
        chain_below(g, 0, x, y) <==> g[x][y] is Some,
{
    if chain_below(g, 0, x, y) {
        let path = choose|path: Seq<int>|
            #[trigger] is_chain_below(g, path, 0) && path[0] == x && path.last() == y;
        if path.len() > 2 {
            assert(path[1] < 0);
            assert(0 <= path[1]);
        }
        assert(step_related(g, path, 0));
    }
    if g[x][y] is Some {
        let path = seq![x, y];
        assert(step_related(g, path, 0));
        assert(is_chain_below(g, path, 0));
    }
}

proof fn lemma_first_at(path: Seq<int>, v: int, lo: int, hi: int) -> (f: int)
    requires
        0 <= lo < hi <= path.len(),
        exists|t: int| lo <= t < hi && path[t] == v,
    ensures
        lo <= f < hi,
        path[f] == v,
        forall|t: int| lo <= t < f ==> path[t] != v,
    decreases hi - lo,
{
    if path[lo] == v {
        lo
    } else {
        let t = choose|t: int| lo <= t < hi && path[t] == v;
        lemma_first_at(path, v, lo + 1, hi)
    }
}

proof fn lemma_last_at(path: Seq<int>, v: int, lo: int, hi: int) -> (l: int)
    requires
        0 <= lo < hi <= path.len(),
        exists|t: int| lo <= t < hi && path[t] == v,
    ensures
        lo <= l < hi,
        path[l] == v,
        forall|t: int| l < t < hi ==> path[t] != v,
    decreases hi - lo,
{
    if path[hi - 1] == v {
        hi - 1
    } else {
        let t = choose|t: int| lo <= t < hi && path[t] == v;
        lemma_last_at(path, v, lo, hi - 1)
    }
}

proof fn lemma_chain_widen(g: Seq<Seq<Option<bool>>>, b: int, x: int, y: int)
    requires
        chain_below(g, b, x, y),
    ensures
        chain_below(g, b + 1, x, y),
{
    let path = choose|path: Seq<int>| #[trigger] is_chain_below(g, path, b) && path[0] == x && path.last() == y;
    assert(is_chain_below(g, path, b + 1));
}

proof fn lemma_chain_join(g: Seq<Seq<Option<bool>>>, b: int, x: int, y: int)
    requires
        0 <= b < g.len(),
        chain_below(g, b, x, b),
        chain_below(g, b, b, y),
    ensures
        chain_below(g, b + 1, x, y),
{
    let p1 = choose|path: Seq<int>| #[trigger] is_chain_below(g, path, b) && path[0] == x && path.last() == b;
    let p2 = choose|path: Seq<int>| #[trigger] is_chain_below(g, path, b) && path[0] == b && path.last() == y;
    let tail = p2.subrange(1, p2.len() as int);
    let q = p1 + tail;
    let n1 = p1.len() as int;
    assert forall|t: int| 0 <= t < q.len() implies 0 <= #[trigger] q[t] < g.len() by {
        if t < n1 {
            assert(q[t] == p1[t]);
        } else {
            assert(q[t] == p2[t - n1 + 1]);
        }
    }
    assert forall|t: int| 0 <= t < q.len() - 1 implies #[trigger] step_related(g, q, t) by {
        if t < n1 - 1 {
            assert(step_related(g, p1, t));
        } else if t == n1 - 1 {
            assert(step_related(g, p2, 0));
            assert(q[t] == p1[n1 - 1]);
            assert(q[t + 1] == p2[1]);
        } else {
            assert(step_related(g, p2, t - n1 + 1));
            assert(q[t] == p2[t - n1 + 1]);
            assert(q[t + 1] == p2[t - n1 + 2]);
        }
    }
    assert forall|t: int| 0 < t < q.len() - 1 implies #[trigger] q[t] < b + 1 by {
        if t < n1 - 1 {
            assert(q[t] == p1[t]);
        } else if t == n1 - 1 {
            assert(q[t] == b);
        } else {
            assert(q[t] == p2[t - n1 + 1]);
        }
    }
    assert(is_chain_below(g, q, b + 1));
    assert(q[0] == x);
    assert(q.last() == p2.last());
}

proof fn lemma_chain_split(g: Seq<Seq<Option<bool>>>, b: int, x: int, y: int)
    requires
        0 <= b,
        chain_below(g, b + 1, x, y),
    ensures
        chain_below(g, b, x, y) || (chain_below(g, b, x, b) && chain_below(g, b, b, y)),
{
    let path = choose|path: Seq<int>| #[trigger] is_chain_below(g, path, b + 1) && path[0] == x && path.last() == y;
    let len = path.len() as int;
    if exists|t: int| 1 <= t < len - 1 && path[t] == b {
        let f = lemma_first_at(path, b, 1, len - 1);
        let l = lemma_last_at(path, b, 1, len - 1);
        let p1 = path.subrange(0, f + 1);
        let p2 = path.subrange(l, len);
        assert forall|t: int| 0 <= t < p1.len() - 1 implies #[trigger] step_related(g, p1, t) by {
            assert(step_related(g, path, t));
        }
        assert forall|t: int| 0 < t < p1.len() - 1 implies #[trigger] p1[t] < b by {
            assert(path[t] < b + 1);
        }
        assert(is_chain_below(g, p1, b));
        assert forall|t: int| 0 <= t < p2.len() - 1 implies #[trigger] step_related(g, p2, t) by {
            assert(step_related(g, path, t + l));
        }
        assert forall|t: int| 0 < t < p2.len() - 1 implies #[trigger] p2[t] < b by {
            assert(path[t + l] < b + 1);
        }
        assert(is_chain_below(g, p2, b));
        assert(p2.last() == path.last());
    } else {
        assert forall|t: int| 0 < t < len - 1 implies #[trigger] path[t] < b by {
            assert(path[t] < b + 1);
        }
        assert(is_chain_below(g, path, b));
    }
}

/// Relaxing one row through pivot `j` relates `(i, y)` for the first `kn`
/// columns exactly when `i` relates to `j` and `j` to `y`; the diagonal and
/// every other entry keep their relation.
proof fn lemma_relax_row(p: Seq<Seq<Option<bool>>>, n: nat, j: int, i: int, kn: int)
    requires
        is_square(p, n),
        0 <= i < n,
        0 <= j < n,
        0 <= kn <= n,
    ensures
        is_square(relax_row(p, j, i, kn), n),
        forall|x: int| 0 <= x < n ==> #[trigger] relax_row(p, j, i, kn)[x][x] == p[x][x],
        forall|x: int, y: int|
            0 <= x < n && 0 <= y < n ==> (#[trigger] relax_row(p, j, i, kn)[x][y] is Some <==> (
            p[x][y] is Some || (x == i && y < kn && x != y && p[i][j] is Some && p[j][y] is Some))),
    decreases kn,
{
    if kn > 0 {
        lemma_relax_row(p, n, j, i, kn - 1);
        let q = relax_row(p, j, i, kn - 1);
        assert(q[i][j] is Some <==> p[i][j] is Some);
        assert(q[j][kn - 1] is Some <==> p[j][kn - 1] is Some);
        let r = relax(q, i, j, kn - 1);
        assert(r == relax_row(p, j, i, kn));
        assert forall|x: int| 0 <= x < n implies (#[trigger] r[x]).len() == n by {
            assert(q[x].len() == n);
        }
    }
}

proof fn lemma_relax_pivot(p: Seq<Seq<Option<bool>>>, n: nat, j: int, iN: int)
    requires
        is_square(p, n),
        0 <= j < n,
        0 <= iN <= n,
    ensures
        is_square(relax_pivot(p, j, iN, n as int), n),
        forall|x: int| 0 <= x < n ==> #[trigger] relax_pivot(p, j, iN, n as int)[x][x] == p[x][x],
        forall|x: int, y: int|
            0 <= x < n && 0 <= y < n ==> (#[trigger] relax_pivot(p, j, iN, n as int)[x][y] is Some
                <==> (p[x][y] is Some || (x < iN && x != y && p[x][j] is Some && p[j][y] is Some))),
    decreases iN,
{
    if iN > 0 {
        lemma_relax_pivot(p, n, j, iN - 1);
        let q = relax_pivot(p, j, iN - 1, n as int);
        lemma_relax_row(q, n, j, iN - 1, n as int);
        let i = iN - 1;
        assert(q[i][j] is Some <==> p[i][j] is Some);
        assert forall|y: int| 0 <= y < n implies (#[trigger] q[j][y] is Some <==> p[j][y] is Some) by {
            assert(p[j][j] is Some ==> p[j][j] is Some);
        }
    }
}

/// After pivots `0..jN`, two distinct locals are related exactly when a chain
/// with interior locals below `jN` leads from one to the other.
proof fn lemma_closure(d: Seq<Seq<Option<bool>>>, n: nat, jN: int)
    requires
        is_square(d, n),
        forall|x: int| 0 <= x < n ==> #[trigger] d[x][x] is Some,
        0 <= jN <= n,
    ensures
        is_square(closure(d, jN, n as int), n),
        forall|x: int| 0 <= x < n ==> #[trigger] closure(d, jN, n as int)[x][x] == d[x][x],
        forall|x: int, y: int|
            0 <= x < n && 0 <= y < n && x != y ==> (#[trigger] closure(d, jN, n as int)[x][y] is Some
                <==> chain_below(d, jN, x, y)),
    decreases jN,
{
    if jN == 0 {
        assert forall|x: int, y: int| 0 <= x < n && 0 <= y < n && x != y implies (
        #[trigger] closure(d, jN, n as int)[x][y] is Some <==> chain_below(d, jN, x, y)) by {
            lemma_chain_base(d, n, x, y);
        }
    } else {
        let j = jN - 1;
        lemma_closure(d, n, j);
        let c = closure(d, j, n as int);
        lemma_relax_pivot(c, n, j, n as int);
        assert forall|x: int, y: int| 0 <= x < n && 0 <= y < n && x != y implies (
        #[trigger] closure(d, jN, n as int)[x][y] is Some <==> chain_below(d, jN, x, y)) by {
            assert(closure(d, jN, n as int) == relax_pivot(c, j, n as int, n as int));
            if chain_below(d, jN, x, y) {
                lemma_chain_split(d, j, x, y);
            }
            if x != j && chain_below(d, j, x, j) && y != j && chain_below(d, j, j, y) {
                lemma_chain_join(d, j, x, y);
            }
            if chain_below(d, j, x, y) {
                lemma_chain_widen(d, j, x, y);
            }
            if x == j && chain_below(d, j, j, y) {
                lemma_chain_widen(d, j, j, y);
            }
            if y == j && chain_below(d, j, x, j) {
                lemma_chain_widen(d, j, x, j);
            }
        }
    }
}


pub(crate) proof fn lemma_statements_in_bounds(blocks: Seq<Seq<Statement>>, n: nat)
    requires
        forall|b: int, t: int|
            0 <= b < blocks.len() && 0 <= t < blocks[b].len() ==> statement_in_bounds(
                #[trigger] blocks[b][t],
                n,
            ),
    ensures
        forall|t: int|
            0 <= t < body_statements(blocks).len() ==> statement_in_bounds(
                #[trigger] body_statements(blocks)[t],
                n,
            ),
    decreases blocks.len(),
{
    if blocks.len() > 0 {
        let front = blocks.drop_last();
        assert forall|b: int, t: int|
            0 <= b < front.len() && 0 <= t < front[b].len() implies statement_in_bounds(
            #[trigger] front[b][t],
            n,
        ) by {
            assert(front[b] == blocks[b]);
        }
        lemma_statements_in_bounds(front, n);
        let all = body_statements(blocks);
        let head = body_statements(front);
        assert forall|t: int| 0 <= t < all.len() implies statement_in_bounds(#[trigger] all[t], n) by {
            if t < head.len() {
                assert(all[t] == head[t]);
            } else {
                assert(all[t] == blocks.last()[t - head.len()]);
                assert(blocks.last() == blocks[blocks.len() - 1]);
            }
        }
    }
}

proof fn lemma_set_rel(p: Seq<Seq<Option<bool>>>, n: nat, i: int, j: Option<usize>, v: bool)
    requires
        is_square(p, n),
        0 <= i < n,
        j matches Some(j) ==> j < n,
    ensures
        is_square(set_rel(p, i as usize, j, v), n),
        forall|x: int, y: int|
            0 <= x < n && 0 <= y < n && p[x][y] is Some ==> #[trigger] set_rel(
                p,
                i as usize,
                j,
                v,
            )[x][y] is Some,
{
}

/// Recording assignments keeps the facts square and never forgets a relation;
/// in particular every local stays related to itself.
proof fn lemma_scan_keeps_relations(p: Seq<Seq<Option<bool>>>, n: nat, stmts: Seq<Statement>)
    requires
        is_square(p, n),
        forall|t: int| 0 <= t < stmts.len() ==> statement_in_bounds(#[trigger] stmts[t], n),
    ensures
        is_square(product_scan(p, stmts), n),
        forall|x: int, y: int|
            0 <= x < n && 0 <= y < n && p[x][y] is Some ==> #[trigger] product_scan(p, stmts)[x][y] is Some,
    decreases stmts.len(),
{
    if stmts.len() > 0 {
        let front = stmts.drop_last();
        assert forall|t: int| 0 <= t < front.len() implies statement_in_bounds(#[trigger] front[t], n) by {
            assert(front[t] == stmts[t]);
        }
        lemma_scan_keeps_relations(p, n, front);
        let q = product_scan(p, front);
        let s = stmts.last();
        assert(statement_in_bounds(stmts[stmts.len() - 1], n));
        match s {
            Statement::Assign(lhs, rv) => {
                let l = lhs.local as int;
                if !lhs.projected {
                    match rv {
                        crate::locals::Rvalue::BinaryOp(op, a, b) => {
                            let a_local = crate::locals::operand_local(a);
                            let b_local = crate::locals::operand_local(b);
                            lemma_set_rel(q, n, l, a_local, true);
                            let q1 = set_rel(q, l as usize, a_local, true);
                            lemma_set_rel(q1, n, l, b_local, true);
                            lemma_set_rel(q1, n, l, b_local, false);
                        },
                        crate::locals::Rvalue::Use(op) => {
                            lemma_set_rel(q, n, l, crate::locals::operand_local(op), true);
                        },
                        crate::locals::Rvalue::Cast(op) => {
                            lemma_set_rel(q, n, l, crate::locals::operand_local(op), true);
                        },
                        crate::locals::Rvalue::Other => {},
                    }
                }
            },
            Statement::Other => {},
        }
    }
}

/// Two distinct locals of a well-formed body are in the product relation
/// exactly when a chain of direct relations, each recorded by one of the
/// body's assignments, leads from the first to the second; every local keeps
/// the relation to itself that the assignments recorded.
pub proof fn lemma_products_are_chains(body: &Body)
    requires
        body_wf(body),
    ensures
        forall|x: int, y: int|
            0 <= x < body.local_count && 0 <= y < body.local_count && x != y ==> (
            #[trigger] spec_body_products(body)[x][y] is Some <==> chained(
                spec_direct_products(body),
                x,
                y,
            )),
        forall|x: int|
            0 <= x < body.local_count ==> #[trigger] spec_body_products(body)[x][x]
                == spec_direct_products(body)[x][x],
        forall|x: int| 0 <= x < body.local_count ==> #[trigger] spec_body_products(body)[x][x] is Some,
{
    let n = body.local_count as nat;
    let blocks = blocks_view(body);
    assert forall|b: int, t: int|
        0 <= b < blocks.len() && 0 <= t < blocks[b].len() implies statement_in_bounds(
        #[trigger] blocks[b][t],
        n,
    ) by {
        assert(blocks[b] == body.basic_blocks@[b]@);
        assert(statement_in_bounds(body.basic_blocks@[b]@[t], n));
    }
    lemma_statements_in_bounds(blocks, n);
    let p0 = initial_product(n);
    assert(is_square(p0, n));
    lemma_scan_keeps_relations(p0, n, body_statements(blocks));
    let d = spec_direct_products(body);
    assert forall|x: int| 0 <= x < n implies #[trigger] d[x][x] is Some by {
        assert(p0[x][x] is Some);
    }
    lemma_closure(d, n, n as int);
}

/// The number of quotient steps along `path` through `g`: steps whose direct
/// fact is `Some(false)`.
pub open spec fn quotient_steps(g: Seq<Seq<Option<bool>>>, path: Seq<int>) -> nat
    decreases path.len(),
{
    if path.len() < 2 {
        0
    } else {
        quotient_steps(g, path.drop_last()) + if g[path[path.len() - 2]][path.last()] == Some(false) {
            1nat
        } else {
            0nat
        }
    }
}

/// Some chain of direct facts of `g` leads from `x` to `y` and takes an even
/// number of quotient steps exactly when `s` holds: two quotients make a
/// product.
pub open spec fn signed_chain(g: Seq<Seq<Option<bool>>>, x: int, y: int, s: bool) -> bool {
    exists|path: Seq<int>|
        #[trigger] is_chain_below(g, path, g.len() as int) && path[0] == x && path.last() == y && (
        quotient_steps(g, path) % 2 == 0) == s
}

/// Every fact of `c` is the sign of some chain of direct facts of `d`.
pub open spec fn facts_witnessed(d: Seq<Seq<Option<bool>>>, c: Seq<Seq<Option<bool>>>, n: nat) -> bool {
    forall|x: int, y: int|
        #![trigger c[x][y]]
        0 <= x < n && 0 <= y < n ==> (c[x][y] matches Some(s) ==> signed_chain(d, x, y, s))
}

proof fn lemma_steps_concat(g: Seq<Seq<Option<bool>>>, p1: Seq<int>, p2: Seq<int>)
    requires
        p1.len() >= 1,
        p2.len() >= 1,
        p1.last() == p2[0],
    ensures
        quotient_steps(g, p1 + p2.subrange(1, p2.len() as int)) == quotient_steps(g, p1)
            + quotient_steps(g, p2),
    decreases p2.len(),
{
    let q = p1 + p2.subrange(1, p2.len() as int);
    if p2.len() == 1 {
        assert(q =~= p1);
    } else {
        let front = p2.drop_last();
        lemma_steps_concat(g, p1, front);
        assert(q.drop_last() =~= p1 + front.subrange(1, front.len() as int));
        assert(q[q.len() - 2] == p2[p2.len() - 2]);
        assert(q.last() == p2.last());
    }
}

proof fn lemma_concat_chain(g: Seq<Seq<Option<bool>>>, p1: Seq<int>, p2: Seq<int>) -> (q: Seq<int>)
    requires
        is_chain_below(g, p1, g.len() as int),
        is_chain_below(g, p2, g.len() as int),
        p1.last() == p2[0],
    ensures
        is_chain_below(g, q, g.len() as int),
        q[0] == p1[0],
        q.last() == p2.last(),
        quotient_steps(g, q) == quotient_steps(g, p1) + quotient_steps(g, p2),
{
    let q = p1 + p2.subrange(1, p2.len() as int);
    let n1 = p1.len() as int;
    assert forall|t: int| 0 <= t < q.len() implies 0 <= #[trigger] q[t] < g.len() by {
        if t < n1 {
            assert(q[t] == p1[t]);
        } else {
            assert(q[t] == p2[t - n1 + 1]);
        }
    }
    assert forall|t: int| 0 <= t < q.len() - 1 implies #[trigger] step_related(g, q, t) by {
        if t < n1 - 1 {
            assert(step_related(g, p1, t));
        } else if t == n1 - 1 {
            assert(step_related(g, p2, 0));
            assert(q[t] == p1[n1 - 1]);
            assert(q[t + 1] == p2[1]);
        } else {
            assert(step_related(g, p2, t - n1 + 1));
            assert(q[t] == p2[t - n1 + 1]);
            assert(q[t + 1] == p2[t - n1 + 2]);
        }
    }
    assert forall|t: int| 0 < t < q.len() - 1 implies #[trigger] q[t] < g.len() by {
        assert(0 <= q[t] < g.len());
    }
    assert(q.last() == p2.last());
    lemma_steps_concat(g, p1, p2);
    q
}

proof fn lemma_direct_witnessed(d: Seq<Seq<Option<bool>>>, n: nat)
    requires
        is_square(d, n),
    ensures
        facts_witnessed(d, d, n),
{
    assert forall|x: int, y: int| 0 <= x < n && 0 <= y < n implies (#[trigger] d[x][y] matches Some(s)
        ==> signed_chain(d, x, y, s)) by {
        if let Some(s) = d[x][y] {
            let path = seq![x, y];
            assert(step_related(d, path, 0));
            assert(is_chain_below(d, path, d.len() as int));
            assert(path.drop_last() =~= seq![x]);
            assert(quotient_steps(d, seq![x]) == 0);
            assert(path[path.len() - 2] == x && path.last() == y);
            assert(quotient_steps(d, path) == if d[x][y] == Some(false) {
                1nat
            } else {
                0nat
            });
        }
    }
}

proof fn lemma_relax_witnessed(
    d: Seq<Seq<Option<bool>>>,
    c: Seq<Seq<Option<bool>>>,
    n: nat,
    i: int,
    j: int,
    k: int,
)
    requires
        is_square(d, n),
        is_square(c, n),
        0 <= i < n,
        0 <= j < n,
        0 <= k < n,
        facts_witnessed(d, c, n),
    ensures
        is_square(relax(c, i, j, k), n),
        facts_witnessed(d, relax(c, i, j, k), n),
{
    let r = relax(c, i, j, k);
    if i != k {
        if let (Some(s1), Some(s2)) = (c[i][j], c[j][k]) {
            assert(signed_chain(d, i, j, s1));
            assert(signed_chain(d, j, k, s2));
            let p1 = choose|path: Seq<int>|
                #[trigger] is_chain_below(d, path, d.len() as int) && path[0] == i && path.last() == j
                    && (quotient_steps(d, path) % 2 == 0) == s1;
            let p2 = choose|path: Seq<int>|
                #[trigger] is_chain_below(d, path, d.len() as int) && path[0] == j && path.last() == k
                    && (quotient_steps(d, path) % 2 == 0) == s2;
            let q = lemma_concat_chain(d, p1, p2);
            let a = quotient_steps(d, p1);
            let b = quotient_steps(d, p2);
            assert(((a + b) % 2 == 0) == ((a % 2 == 0) == (b % 2 == 0))) by (nonlinear_arith);
            assert(signed_chain(d, i, k, s1 == s2));
            assert forall|x: int| 0 <= x < n implies (#[trigger] r[x]).len() == n by {
                assert(c[x].len() == n);
            }
            assert forall|x: int, y: int| 0 <= x < n && 0 <= y < n implies (#[trigger] r[x][y] matches Some(
                s,
            ) ==> signed_chain(d, x, y, s)) by {
                if x == i && y == k {
                } else {
                    assert(r[x][y] == c[x][y]);
                }
            }
        }
    }
}

proof fn lemma_relax_row_witnessed(d: Seq<Seq<Option<bool>>>, c: Seq<Seq<Option<bool>>>, n: nat, j: int, i: int, kn: int)
    requires
        is_square(d, n),
        is_square(c, n),
        0 <= i < n,
        0 <= j < n,
        0 <= kn <= n,
        facts_witnessed(d, c, n),
    ensures
        is_square(relax_row(c, j, i, kn), n),
        facts_witnessed(d, relax_row(c, j, i, kn), n),
    decreases kn,
{
    if kn > 0 {
        lemma_relax_row_witnessed(d, c, n, j, i, kn - 1);
        lemma_relax_witnessed(d, relax_row(c, j, i, kn - 1), n, i, j, kn - 1);
    }
}

proof fn lemma_relax_pivot_witnessed(d: Seq<Seq<Option<bool>>>, c: Seq<Seq<Option<bool>>>, n: nat, j: int, iN: int)
    requires
        is_square(d, n),
        is_square(c, n),
        0 <= j < n,
        0 <= iN <= n,
        facts_witnessed(d, c, n),
    ensures
        is_square(relax_pivot(c, j, iN, n as int), n),
        facts_witnessed(d, relax_pivot(c, j, iN, n as int), n),
    decreases iN,
{
    if iN > 0 {
        lemma_relax_pivot_witnessed(d, c, n, j, iN - 1);
        lemma_relax_row_witnessed(d, relax_pivot(c, j, iN - 1, n as int), n, j, iN - 1, n as int);
    }
}

proof fn lemma_closure_witnessed(d: Seq<Seq<Option<bool>>>, n: nat, jN: int)
    requires
        is_square(d, n),
        0 <= jN <= n,
    ensures
        is_square(closure(d, jN, n as int), n),
        facts_witnessed(d, closure(d, jN, n as int), n),
    decreases jN,
{
    if jN == 0 {
        lemma_direct_witnessed(d, n);
    } else {
        lemma_closure_witnessed(d, n, jN - 1);
        lemma_relax_pivot_witnessed(d, closure(d, jN - 1, n as int), n, jN - 1, n as int);
    }
}

/// Every product fact of a well-formed body is the sign of a chain of direct
/// facts, each recorded by one of the body's assignments, from the first local
/// to the second: `Some(true)` (a product) when the chain takes an even number
/// of quotient steps, `Some(false)` (a quotient) when it takes an odd number.
pub proof fn lemma_product_signs_follow_chains(body: &Body)
    requires
        body_wf(body),
    ensures
        forall|x: int, y: int|
            #![trigger spec_body_products(body)[x][y]]
            0 <= x < body.local_count && 0 <= y < body.local_count ==> (spec_body_products(
                body,
            )[x][y] matches Some(s) ==> signed_chain(spec_direct_products(body), x, y, s)),
{
    let n = body.local_count as nat;
    let blocks = blocks_view(body);
    assert forall|b: int, t: int|
        0 <= b < blocks.len() && 0 <= t < blocks[b].len() implies statement_in_bounds(
        #[trigger] blocks[b][t],
        n,
    ) by {
        assert(blocks[b] == body.basic_blocks@[b]@);
        assert(statement_in_bounds(body.basic_blocks@[b]@[t], n));
    }
    lemma_statements_in_bounds(blocks, n);
    let p0 = initial_product(n);
    assert(is_square(p0, n));
    lemma_scan_keeps_relations(p0, n, body_statements(blocks));
    let d = spec_direct_products(body);
    lemma_closure_witnessed(d, n, n as int);
    let c = spec_body_products(body);
    assert forall|x: int, y: int|
        #![trigger c[x][y]]
        0 <= x < n && 0 <= y < n implies (c[x][y] matches Some(s) ==> signed_chain(d, x, y, s)) by {}
}

/// When every chain of direct facts from one local of a well-formed body to
/// another takes the same parity of quotient steps, and some chain exists, the
/// body's product fact is that sign: a product for an even number, a quotient
/// for an odd one.
pub proof fn lemma_product_sign_of_consistent_chains(body: &Body, x: int, y: int, s: bool)
    requires
        body_wf(body),
        0 <= x < body.local_count,
        0 <= y < body.local_count,
        x != y,
        chained(spec_direct_products(body), x, y),
        forall|path: Seq<int>|
            #[trigger] is_chain_below(
                spec_direct_products(body),
                path,
                spec_direct_products(body).len() as int,
            ) && path[0] == x && path.last() == y ==> (quotient_steps(spec_direct_products(body), path)
                % 2 == 0) == s,
    ensures
        spec_body_products(body)[x][y] == Some(s),
{
    lemma_products_are_chains(body);
    lemma_product_signs_follow_chains(body);
    let v = spec_body_products(body)[x][y];
    assert(v is Some);
    let t = v->0;
    assert(signed_chain(spec_direct_products(body), x, y, t));
}

/// Whether a statement assigns the local `l` itself, not a part of it.
pub open spec fn assigns_whole(s: Statement, l: Local) -> bool {
    s matches Statement::Assign(p, _) && !p.projected && p.local == l
}

/// Whether an operand copies or moves the whole local `a`.
pub open spec fn reads_whole(op: Operand, a: Local) -> bool {
    op == Operand::Copy(Place { local: a, projected: false }) || op == Operand::Move(
        Place { local: a, projected: false },
    )
}

proof fn lemma_product_row_tail(p: Seq<Seq<Option<bool>>>, n: nat, stmts: Seq<Statement>, k: int, l: int)
    requires
        is_square(p, n),
        0 <= k < stmts.len(),
        0 <= l < n,
        forall|t: int| 0 <= t < stmts.len() ==> statement_in_bounds(#[trigger] stmts[t], n),
        forall|j: int| k < j < stmts.len() ==> !assigns_whole(#[trigger] stmts[j], l as usize),
    ensures
        product_scan(p, stmts)[l] == product_scan(p, stmts.take(k + 1))[l],
    decreases stmts.len(),
{
    if stmts.len() == k + 1 {
        assert(stmts.take(k + 1) =~= stmts);
    } else {
        let front = stmts.drop_last();
        assert forall|t: int| 0 <= t < front.len() implies statement_in_bounds(#[trigger] front[t], n) by {
            assert(front[t] == stmts[t]);
        }
        assert forall|j: int| k < j < front.len() implies !assigns_whole(#[trigger] front[j], l as usize) by {
            assert(front[j] == stmts[j]);
        }
        lemma_product_row_tail(p, n, front, k, l);
        assert(front.take(k + 1) =~= stmts.take(k + 1));
        lemma_scan_keeps_relations(p, n, front);
        let last = stmts[stmts.len() - 1];
        assert(!assigns_whole(last, l as usize));
        assert(statement_in_bounds(last, n));
    }
}

proof fn lemma_direct_at(body: &Body, k: int, l: Local)
    requires
        body_wf(body),
        0 <= k < body_statements(blocks_view(body)).len(),
        l < body.local_count,
        forall|j: int|
            k < j < body_statements(blocks_view(body)).len() ==> !assigns_whole(
                #[trigger] body_statements(blocks_view(body))[j],
                l,
            ),
    ensures
        ({
            let stmts = body_statements(blocks_view(body));
            let p0 = initial_product(body.local_count as nat);
            &&& spec_direct_products(body)[l as int] == crate::locals::product_step(
                product_scan(p0, stmts.take(k)),
                stmts[k],
            )[l as int]
            &&& is_square(product_scan(p0, stmts.take(k)), body.local_count as nat)
        }),
{
    let n = body.local_count as nat;
    let blocks = blocks_view(body);
    let stmts = body_statements(blocks);
    assert forall|b: int, t: int|
        0 <= b < blocks.len() && 0 <= t < blocks[b].len() implies statement_in_bounds(
        #[trigger] blocks[b][t],
        n,
    ) by {
        assert(blocks[b] == body.basic_blocks@[b]@);
        assert(statement_in_bounds(body.basic_blocks@[b]@[t], n));
    }
    lemma_statements_in_bounds(blocks, n);
    let p0 = initial_product(n);
    assert(is_square(p0, n));
    lemma_product_row_tail(p0, n, stmts, k, l as int);
    let upto = stmts.take(k + 1);
    assert(upto.drop_last() =~= stmts.take(k));
    assert(upto.last() == stmts[k]);
    assert forall|t: int| 0 <= t < stmts.take(k).len() implies statement_in_bounds(
        #[trigger] stmts.take(k)[t],
        n,
    ) by {
        assert(stmts.take(k)[t] == stmts[t]);
    }
    lemma_scan_keeps_relations(p0, n, stmts.take(k));
}

/// After the last assignment `_l = _a op _b` of a local from two distinct
/// whole locals, the direct facts of the body record `_l` as a product of
/// both for an addition, subtraction or multiplication (checked, unchecked or
/// wrapping), and as a product of `_a` and a quotient of `_b` for a division.
pub proof fn lemma_direct_facts_of_binary(
    body: &Body,
    k: int,
    l: Local,
    op: BinOp,
    x: Operand,
    y: Operand,
    a: Local,
    b: Local,
)
    requires
        body_wf(body),
        0 <= k < body_statements(blocks_view(body)).len(),
        body_statements(blocks_view(body))[k] == Statement::Assign(
            Place { local: l, projected: false },
            Rvalue::BinaryOp(op, x, y),
        ),
        reads_whole(x, a),
        reads_whole(y, b),
        a != b,
        forall|j: int|
            k < j < body_statements(blocks_view(body)).len() ==> !assigns_whole(
                #[trigger] body_statements(blocks_view(body))[j],
                l,
            ),
    ensures
        (op == BinOp::Add || op == BinOp::AddUnchecked || op == BinOp::AddWithOverflow || op
            == BinOp::Sub || op == BinOp::SubUnchecked || op == BinOp::SubWithOverflow || op
            == BinOp::Mul || op == BinOp::MulUnchecked || op == BinOp::MulWithOverflow) ==> (
        spec_direct_products(body)[l as int][a as int] == Some(true) && spec_direct_products(
            body,
        )[l as int][b as int] == Some(true)),
        op == BinOp::Div ==> (spec_direct_products(body)[l as int][a as int] == Some(true)
            && spec_direct_products(body)[l as int][b as int] == Some(false)),
{
    let stmts = body_statements(blocks_view(body));
    let n = body.local_count as nat;
    let blocks = blocks_view(body);
    assert forall|bb: int, t: int|
        0 <= bb < blocks.len() && 0 <= t < blocks[bb].len() implies statement_in_bounds(
        #[trigger] blocks[bb][t],
        n,
    ) by {
        assert(blocks[bb] == body.basic_blocks@[bb]@);
        assert(statement_in_bounds(body.basic_blocks@[bb]@[t], n));
    }
    lemma_statements_in_bounds(blocks, n);
    assert(statement_in_bounds(stmts[k], n));
    lemma_direct_at(body, k, l);
}

/// After the last assignment `_l = _a`, or `_l = _a as T`, of a local from a
/// whole local, the direct facts of the body record `_l` as a product of `_a`.
pub proof fn lemma_direct_facts_of_copy(body: &Body, k: int, l: Local, x: Operand, a: Local)
    requires
        body_wf(body),
        0 <= k < body_statements(blocks_view(body)).len(),
        body_statements(blocks_view(body))[k] == Statement::Assign(
            Place { local: l, projected: false },
            Rvalue::Use(x),
        ) || body_statements(blocks_view(body))[k] == Statement::Assign(
            Place { local: l, projected: false },
            Rvalue::Cast(x),
        ),
        reads_whole(x, a),
        forall|j: int|
            k < j < body_statements(blocks_view(body)).len() ==> !assigns_whole(
                #[trigger] body_statements(blocks_view(body))[j],
                l,
            ),
    ensures
        spec_direct_products(body)[l as int][a as int] == Some(true),
{
    let stmts = body_statements(blocks_view(body));
    let n = body.local_count as nat;
    let blocks = blocks_view(body);
    assert forall|bb: int, t: int|
        0 <= bb < blocks.len() && 0 <= t < blocks[bb].len() implies statement_in_bounds(
        #[trigger] blocks[bb][t],
        n,
    ) by {
        assert(blocks[bb] == body.basic_blocks@[bb]@);
        assert(statement_in_bounds(body.basic_blocks@[bb]@[t], n));
    }
    lemma_statements_in_bounds(blocks, n);
    assert(statement_in_bounds(stmts[k], n));
    lemma_direct_at(body, k, l);
}

} // verus!
