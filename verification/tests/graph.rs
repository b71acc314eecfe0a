use rpl::graph::{
    normalized_terminator_edges, pat_control_flow_graph, pat_normalized_switch_targets, IntTy,
    IntValue, SwitchTargets, TerminatorEdges, TerminatorKind,
};

fn lit(value: u128, negative: bool, ty: IntTy) -> IntValue {
    IntValue { value, negative, ty }
}

#[test]
fn normalize_gives_twos_complement_bits() {
    assert_eq!(lit(1, true, IntTy::I8).normalize(8), 0xff);
    assert_eq!(lit(128, true, IntTy::I8).normalize(8), 0x80);
    assert_eq!(lit(5, false, IntTy::U8).normalize(8), 5);
    assert_eq!(lit(0x1_0005, false, IntTy::U16).normalize(8), 5);
    assert_eq!(lit(2, true, IntTy::I32).normalize(8), 0xffff_fffe);
    assert_eq!(lit(1, true, IntTy::Isize).normalize(4), 0xffff_ffff);
    assert_eq!(lit(1, true, IntTy::Isize).normalize(8), 0xffff_ffff_ffff_ffff);
    assert_eq!(lit(1, true, IntTy::I128).normalize(8), u128::MAX);
    assert_eq!(lit(0, true, IntTy::I64).normalize(8), 0);
    assert_eq!(lit(u128::MAX, false, IntTy::U128).normalize(2), u128::MAX);
    assert_eq!(lit(7, false, IntTy::Usize).normalize(2), 7);
}

#[test]
fn terminator_edges() {
    assert!(matches!(normalized_terminator_edges(None, 8), TerminatorEdges::Exit));
    assert!(matches!(normalized_terminator_edges(Some(&TerminatorKind::Return), 8), TerminatorEdges::Exit));
    assert!(matches!(normalized_terminator_edges(Some(&TerminatorKind::PatEnd), 8), TerminatorEdges::Exit));
    assert!(matches!(
        normalized_terminator_edges(Some(&TerminatorKind::Goto { target: 3 }), 8),
        TerminatorEdges::Single(3)
    ));
    assert!(matches!(
        normalized_terminator_edges(Some(&TerminatorKind::Drop { target: 4 }), 8),
        TerminatorEdges::Single(4)
    ));
    match normalized_terminator_edges(Some(&TerminatorKind::Call { target: 5 }), 8) {
        TerminatorEdges::AssignOnReturn { return_, cleanup } => {
            assert_eq!(return_, vec![5]);
            assert_eq!(cleanup, None);
        },
        _ => panic!("a call returns to its target"),
    }
    let switch = TerminatorKind::SwitchInt {
        targets: SwitchTargets {
            targets: vec![(lit(0, false, IntTy::I32), 1), (lit(1, true, IntTy::I32), 2)],
            otherwise: 9,
        },
    };
    match normalized_terminator_edges(Some(&switch), 8) {
        TerminatorEdges::SwitchInt(t) => {
            assert_eq!(t.targets, vec![(0, 1), (0xffff_ffff, 2)]);
            assert_eq!(t.otherwise, 9);
        },
        _ => panic!("a switch keeps its targets"),
    }
}

#[test]
fn switch_targets_keep_order_and_blocks() {
    let t = SwitchTargets {
        targets: vec![(lit(3, false, IntTy::U8), 7), (lit(1, true, IntTy::I16), 8)],
        otherwise: 0,
    };
    let n = pat_normalized_switch_targets(&t, 8);
    assert_eq!(n.targets, vec![(3, 7), (0xffff, 8)]);
    assert_eq!(n.otherwise, 0);
}

#[test]
fn control_flow_graph_has_edges_per_block() {
    let blocks = vec![Some(TerminatorKind::Goto { target: 1 }), None, Some(TerminatorKind::Return)];
    let cfg = pat_control_flow_graph(&blocks, 8);
    assert_eq!(cfg.edges.len(), 3);
    assert!(matches!(cfg.edges[0], TerminatorEdges::Single(1)));
    assert!(matches!(cfg.edges[1], TerminatorEdges::Exit));
    assert!(matches!(cfg.edges[2], TerminatorEdges::Exit));
}
