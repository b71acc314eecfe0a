//! What the null facts of a body say: after a local's last assignment from a
//! constant, directly or through a cast, the local is null exactly when the
//! constant is a zero integer, not null when it is a pointer, and unknown
//! otherwise.

use vstd::prelude::*;

use crate::product_closure::reads_whole;
use crate::locals::{
    blocks_view, body_statements, body_wf, initial_null, null_scan, Body, ConstValue,
    Local, MirConst, Operand, Place, Rvalue, Scalar, Statement, TyConst, spec_body_null,
    statement_in_bounds,
};
use crate::product_closure::lemma_statements_in_bounds;

verus! {

/// Whether a statement can give the local `l` a null fact: it assigns the
/// whole local from a plain use of an operand, or from a cast of a constant.
/// Every other assignment (arithmetic, a cast of a local, ...) records no null
/// fact.
pub open spec fn sets_null_fact(s: Statement, l: Local) -> bool {
    match s {
        Statement::Assign(p, rv) => !p.projected && p.local == l && match rv {
            Rvalue::Use(_) => true,
            Rvalue::Cast(Operand::Constant(_)) => true,
            _ => false,
        },
        Statement::Other => false,
    }
}

/// Whether a constant is null: an integer is null when its bits are zero, a
/// pointer never is, and nothing is known of any other constant.
pub open spec fn constant_nullness(c: MirConst) -> Option<bool> {
    match c {
        MirConst::Val(ConstValue::Scalar(Scalar::Int(i))) => Some(i.data == 0),
        MirConst::Val(ConstValue::Scalar(Scalar::Ptr)) => Some(false),
        MirConst::Ty(TyConst::Value(ConstValue::Scalar(Scalar::Int(i)))) => Some(i.data == 0),
        MirConst::Ty(TyConst::Value(ConstValue::Scalar(Scalar::Ptr))) => Some(false),
        _ => None,
    }
}

proof fn lemma_null_len(init: Seq<Option<bool>>, stmts: Seq<Statement>)
    requires
        forall|t: int| 0 <= t < stmts.len() ==> statement_in_bounds(#[trigger] stmts[t], init.len()),
    ensures
        null_scan(init, stmts).len() == init.len(),
    decreases stmts.len(),
{
    if stmts.len() > 0 {
        let front = stmts.drop_last();
        assert forall|t: int| 0 <= t < front.len() implies statement_in_bounds(
            #[trigger] front[t],
            init.len(),
        ) by {
            assert(front[t] == stmts[t]);
        }
        lemma_null_len(init, front);
        assert(statement_in_bounds(stmts[stmts.len() - 1], init.len()));
    }
}

proof fn lemma_null_tail(init: Seq<Option<bool>>, stmts: Seq<Statement>, k: int, l: Local)
    requires
        -1 <= k < stmts.len(),
        l < init.len(),
        forall|t: int| 0 <= t < stmts.len() ==> statement_in_bounds(#[trigger] stmts[t], init.len()),
        forall|j: int| k < j < stmts.len() ==> !sets_null_fact(#[trigger] stmts[j], l),
    ensures
        null_scan(init, stmts)[l as int] == null_scan(init, stmts.take(k + 1))[l as int],
    decreases stmts.len(),
{
    if stmts.len() == k + 1 {
        assert(stmts.take(k + 1) =~= stmts);
    } else {
        let front = stmts.drop_last();
        assert forall|t: int| 0 <= t < front.len() implies statement_in_bounds(
            #[trigger] front[t],
            init.len(),
        ) by {
            assert(front[t] == stmts[t]);
        }
        assert forall|j: int| k < j < front.len() implies !sets_null_fact(#[trigger] front[j], l) by {
            assert(front[j] == stmts[j]);
        }
        lemma_null_tail(init, front, k, l);
        assert(front.take(k + 1) =~= stmts.take(k + 1));
        lemma_null_len(init, front);
        let last = stmts[stmts.len() - 1];
        assert(!sets_null_fact(last, l));
        assert(statement_in_bounds(last, init.len()));
    }
}

/// After an assignment of a local from a constant, directly or through a
/// cast, and with no later statement that can give the local a null fact, the
/// body's null fact of the local is the constant's nullness.
pub proof fn lemma_null_after_constant(body: &Body, k: int, l: Local, c: MirConst)
    requires
        body_wf(body),
        0 <= k < body_statements(blocks_view(body)).len(),
        l < body.local_count,
        body_statements(blocks_view(body))[k] == Statement::Assign(
            Place { local: l, projected: false },
            Rvalue::Use(Operand::Constant(c)),
        ) || body_statements(blocks_view(body))[k] == Statement::Assign(
            Place { local: l, projected: false },
            Rvalue::Cast(Operand::Constant(c)),
        ),
        forall|j: int|
            k < j < body_statements(blocks_view(body)).len() ==> !sets_null_fact(
                #[trigger] body_statements(blocks_view(body))[j],
                l,
            ),
    ensures
        spec_body_null(body)[l as int] == constant_nullness(c),
{
    let n = body.local_count as nat;
    let blocks = blocks_view(body);
    let stmts = body_statements(blocks);
    assert forall|b: int, t: int|
        0 <= b < blocks.len() && 0 <= t < blocks[b].len() implies statement_in_bounds(
        #[trigger] blocks[b][t],
        n,
    ) by {
        assert(blocks[b] == body.basic_blocks@[b]@);
        assert(statement_in_bounds(body.basic_blocks@[b]@[t], n));
    }
    lemma_statements_in_bounds(blocks, n);
    let init = initial_null(n);
    lemma_null_tail(init, stmts, k, l);
    let upto = stmts.take(k + 1);
    assert(upto.drop_last() =~= stmts.take(k));
    assert forall|t: int| 0 <= t < stmts.take(k).len() implies statement_in_bounds(
        #[trigger] stmts.take(k)[t],
        n,
    ) by {
        assert(stmts.take(k)[t] == stmts[t]);
    }
    lemma_null_len(init, stmts.take(k));
    assert(upto.last() == stmts[k]);
}

/// A local that no statement of the body assigns from a plain use or from a
/// cast of a constant has no null fact: arithmetic and casts of locals record
/// none.
pub proof fn lemma_null_unassigned(body: &Body, l: Local)
    requires
        body_wf(body),
        l < body.local_count,
        forall|j: int|
            0 <= j < body_statements(blocks_view(body)).len() ==> !sets_null_fact(
                #[trigger] body_statements(blocks_view(body))[j],
                l,
            ),
    ensures
        spec_body_null(body)[l as int] is None,
{
    let n = body.local_count as nat;
    let blocks = blocks_view(body);
    let stmts = body_statements(blocks);
    assert forall|b: int, t: int|
        0 <= b < blocks.len() && 0 <= t < blocks[b].len() implies statement_in_bounds(
        #[trigger] blocks[b][t],
        n,
    ) by {
        assert(blocks[b] == body.basic_blocks@[b]@);
        assert(statement_in_bounds(body.basic_blocks@[b]@[t], n));
    }
    lemma_statements_in_bounds(blocks, n);
    if stmts.len() > 0 {
        lemma_null_tail(initial_null(n), stmts, -1, l);
        assert(stmts.take(0) =~= Seq::<Statement>::empty());
    }
}

/// A copy passes on a null fact: after `_r` is assigned a constant, `_l = _r`
/// (a copy or move of the whole local) with no statement in between that can
/// give `_r` a null fact, and none after that can give `_l` one, the body's
/// null fact of `_l` is the constant's nullness.
pub proof fn lemma_null_through_copy(
    body: &Body,
    k0: int,
    r: Local,
    c: MirConst,
    k: int,
    l: Local,
    x: Operand,
)
    requires
        body_wf(body),
        0 <= k0 < k < body_statements(blocks_view(body)).len(),
        l < body.local_count,
        r < body.local_count,
        body_statements(blocks_view(body))[k0] == Statement::Assign(
            Place { local: r, projected: false },
            Rvalue::Use(Operand::Constant(c)),
        ) || body_statements(blocks_view(body))[k0] == Statement::Assign(
            Place { local: r, projected: false },
            Rvalue::Cast(Operand::Constant(c)),
        ),
        forall|j: int|
            k0 < j < k ==> !sets_null_fact(#[trigger] body_statements(blocks_view(body))[j], r),
        body_statements(blocks_view(body))[k] == Statement::Assign(
            Place { local: l, projected: false },
            Rvalue::Use(x),
        ),
        reads_whole(x, r),
        forall|j: int|
            k < j < body_statements(blocks_view(body)).len() ==> !sets_null_fact(
                #[trigger] body_statements(blocks_view(body))[j],
                l,
            ),
    ensures
        spec_body_null(body)[l as int] == constant_nullness(c),
{
    let n = body.local_count as nat;
    let blocks = blocks_view(body);
    let stmts = body_statements(blocks);
    assert forall|b: int, t: int|
        0 <= b < blocks.len() && 0 <= t < blocks[b].len() implies statement_in_bounds(
        #[trigger] blocks[b][t],
        n,
    ) by {
        assert(blocks[b] == body.basic_blocks@[b]@);
        assert(statement_in_bounds(body.basic_blocks@[b]@[t], n));
    }
    lemma_statements_in_bounds(blocks, n);
    let init = initial_null(n);
    lemma_null_tail(init, stmts, k, l);
    let before = stmts.take(k);
    assert forall|t: int| 0 <= t < before.len() implies statement_in_bounds(#[trigger] before[t], n) by {
        assert(before[t] == stmts[t]);
    }
    assert forall|j: int| k0 < j < before.len() implies !sets_null_fact(#[trigger] before[j], r) by {
        assert(before[j] == stmts[j]);
    }
    lemma_null_tail(init, before, k0, r);
    assert(before.take(k0 + 1) =~= stmts.take(k0 + 1));
    let upto0 = stmts.take(k0 + 1);
    assert(upto0.drop_last() =~= stmts.take(k0));
    assert(upto0.last() == stmts[k0]);
    assert forall|t: int| 0 <= t < stmts.take(k0).len() implies statement_in_bounds(
        #[trigger] stmts.take(k0)[t],
        n,
    ) by {
        assert(stmts.take(k0)[t] == stmts[t]);
    }
    lemma_null_len(init, stmts.take(k0));
    lemma_null_len(init, before);
    let upto = stmts.take(k + 1);
    assert(upto.drop_last() =~= before);
    assert(upto.last() == stmts[k]);
}

} // verus!
