use rpl::locals::{
    is_null, product_of, BinOp, Body, BodyInfoCache, ConstValue, MirConst, Operand, Place, Rvalue,
    Scalar, ScalarInt, Statement, TyConst,
};

fn local(i: usize) -> Place {
    Place { local: i, projected: false }
}

fn int_const(v: u128) -> MirConst {
    MirConst::Val(ConstValue::Scalar(Scalar::Int(ScalarInt { data: v, size: 8 })))
}

fn assign(l: usize, rv: Rvalue) -> Statement {
    Statement::Assign(local(l), rv)
}

fn copy(i: usize) -> Operand {
    Operand::Copy(local(i))
}

#[test]
fn constants_are_null_when_zero() {
    assert_eq!(BodyInfoCache::mir_const_is_null(&int_const(0)), Some(true));
    assert_eq!(BodyInfoCache::mir_const_is_null(&int_const(7)), Some(false));
    assert_eq!(BodyInfoCache::mir_const_is_null(&MirConst::Val(ConstValue::Scalar(Scalar::Ptr))), Some(false));
    assert_eq!(BodyInfoCache::mir_const_is_null(&MirConst::Unevaluated), None);
    assert_eq!(BodyInfoCache::mir_const_is_null(&MirConst::Val(ConstValue::Other)), None);
    assert_eq!(
        BodyInfoCache::ty_const_is_null(&TyConst::Value(ConstValue::Scalar(Scalar::Int(ScalarInt {
            data: 0,
            size: 4
        })))),
        Some(true)
    );
    assert_eq!(BodyInfoCache::ty_const_is_null(&TyConst::Other), None);
    assert_eq!(BodyInfoCache::mir_const_is_null(&MirConst::Ty(TyConst::Other)), None);
}

#[test]
fn null_facts_follow_assignments() {
    // _1 = const 0; _2 = copy _1; _3 = const 5 as T; _1 = move _3; (_4).0 = const 0
    let body = Body {
        local_count: 5,
        basic_blocks: vec![
            vec![
                assign(1, Rvalue::Use(Operand::Constant(int_const(0)))),
                assign(2, Rvalue::Use(copy(1))),
            ],
            vec![
                assign(3, Rvalue::Cast(Operand::Constant(int_const(5)))),
                assign(1, Rvalue::Use(Operand::Move(local(3)))),
                Statement::Assign(Place { local: 4, projected: true }, Rvalue::Use(Operand::Constant(int_const(0)))),
                Statement::Other,
            ],
        ],
    };
    let cache = BodyInfoCache::new(&body);
    assert!(!is_null(&cache, 0));
    assert!(!is_null(&cache, 1));
    assert!(is_null(&cache, 2));
    assert!(!is_null(&cache, 3));
    assert!(!is_null(&cache, 4));
}

#[test]
fn products_and_quotients_are_recorded_and_chained() {
    // _3 = _1 * _2; _4 = _3 / _2; _5 = _4 as T; _6 = _1 % _2
    let body = Body {
        local_count: 7,
        basic_blocks: vec![vec![
            assign(3, Rvalue::BinaryOp(BinOp::Mul, copy(1), copy(2))),
            assign(4, Rvalue::BinaryOp(BinOp::Div, copy(3), copy(2))),
            assign(5, Rvalue::Cast(copy(4))),
            assign(6, Rvalue::BinaryOp(BinOp::Other, copy(1), copy(2))),
        ]],
    };
    let cache = BodyInfoCache::new(&body);
    assert!(product_of(&cache, vec![3, 1]));
    assert!(product_of(&cache, vec![3, 2]));
    assert!(product_of(&cache, vec![4, 3]));
    // the direct quotient _4 / _2 is overridden by the chain _4 -> _3 -> _2
    assert!(product_of(&cache, vec![4, 2]));
    assert!(product_of(&cache, vec![5, 4, 3, 1]));
    // closure through _4: _5 is a product of _3 and, through _3, of _1
    assert!(product_of(&cache, vec![5, 3]));
    assert!(product_of(&cache, vec![5, 1]));
    assert!(!product_of(&cache, vec![6, 1]));
    assert!(!product_of(&cache, vec![1, 3]));
    // every local is related to itself
    assert!(product_of(&cache, vec![0, 0]));
    // lists of fewer than two locals hold trivially
    assert!(product_of(&cache, vec![]));
    assert!(product_of(&cache, vec![6]));
}

#[test]
fn debug_entries_list_known_facts_row_by_row() {
    let body = Body {
        local_count: 3,
        basic_blocks: vec![vec![assign(2, Rvalue::BinaryOp(BinOp::Div, copy(0), copy(1)))]],
    };
    let cache = BodyInfoCache::new(&body);
    assert_eq!(
        cache.debug_entries(),
        vec![(0, 0, true), (1, 1, true), (2, 0, true), (2, 1, false), (2, 2, true)]
    );
}

#[test]
fn chain_law_on_a_cycle_free_body() {
    // _1 = _0 + _0; _2 = _1 - _1; _3 = _2; nothing relates _0 to _3 backwards
    let body = Body {
        local_count: 4,
        basic_blocks: vec![vec![
            assign(1, Rvalue::BinaryOp(BinOp::Add, copy(0), copy(0))),
            assign(2, Rvalue::BinaryOp(BinOp::SubWithOverflow, copy(1), copy(1))),
            assign(3, Rvalue::Use(copy(2))),
        ]],
    };
    let cache = BodyInfoCache::new(&body);
    assert!(product_of(&cache, vec![3, 0]));
    assert!(!product_of(&cache, vec![0, 3]));
}

#[test]
fn bodies_naming_only_their_locals() {
    let good = Body { local_count: 2, basic_blocks: vec![vec![assign(1, Rvalue::Use(copy(0)))], vec![Statement::Other]] };
    assert!(rpl::locals::body_is_wf(&good));
    let bad_rhs = Body { local_count: 2, basic_blocks: vec![vec![assign(1, Rvalue::BinaryOp(BinOp::Add, copy(0), copy(2)))]] };
    assert!(!rpl::locals::body_is_wf(&bad_rhs));
    let bad_lhs = Body { local_count: 1, basic_blocks: vec![vec![], vec![assign(3, Rvalue::Other)]] };
    assert!(!rpl::locals::body_is_wf(&bad_lhs));
}
