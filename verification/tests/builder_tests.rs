use algexeno_cistercian::Draw;
use algexeno_cistercian::Expr;
use algexeno_cistercian::Op;

fn bin(op: Op, a: Expr, b: Expr) -> Expr {
    Expr::Bin(op, Box::new((a, b)))
}

#[test]
fn digit_glyphs_succeed() {
    for k in 0..=18u64 {
        let d = Draw::from_algexeno(&Expr::Const(k)).unwrap();
        if k == 0 {
            assert!(matches!(d, Draw::Line { .. }));
        } else {
            match d {
                Draw::Sequence(cs) => {
                    assert!(cs.len() >= 2);
                    assert!(matches!(cs[0], Draw::Line { .. }));
                }
                _ => panic!("digit glyph should be a sequence"),
            }
        }
    }
}

#[test]
fn orig_zero_and_one_succeed() {
    let d0 = Draw::from_algexeno(&Expr::Orig(0)).unwrap();
    assert!(matches!(d0, Draw::Circle { .. }));
    let d1 = Draw::from_algexeno(&Expr::Orig(1)).unwrap();
    match d1 {
        Draw::Sequence(cs) => {
            assert_eq!(cs.len(), 2);
            assert!(matches!(cs[0], Draw::Circle { .. }));
            assert!(matches!(cs[1], Draw::Line { .. }));
        }
        _ => panic!("Orig(1) should be a sequence"),
    }
}

#[test]
fn unsupported_orig_index() {
    assert!(Draw::from_algexeno(&Expr::Orig(2)).is_err());
    assert!(Draw::from_algexeno(&Expr::Orig(100)).is_err());
}

#[test]
fn unsupported_const_index() {
    assert!(Draw::from_algexeno(&Expr::Const(19)).is_err());
}

#[test]
fn unsupported_nested_child() {
    let e = bin(Op::Mul, Expr::Const(0), Expr::Orig(5));
    assert!(Draw::from_algexeno(&e).is_err());
    let e2 = bin(Op::Pow, Expr::Orig(3), Expr::Const(0));
    assert!(Draw::from_algexeno(&e2).is_err());
}

#[test]
fn pow_separator_forced_by_bare_stem() {
    let forced = Draw::from_algexeno(&bin(Op::Pow, Expr::Const(0), Expr::Const(1))).unwrap();
    match forced {
        Draw::MirrorV(sep, _) => assert!(sep),
        _ => panic!("power should map to a vertical mirror"),
    }
    let forced_right = Draw::from_algexeno(&bin(Op::Pow, Expr::Const(1), Expr::Const(0))).unwrap();
    match forced_right {
        Draw::MirrorV(sep, _) => assert!(sep),
        _ => panic!("power should map to a vertical mirror"),
    }
    let free = Draw::from_algexeno(&bin(Op::Pow, Expr::Const(1), Expr::Const(2))).unwrap();
    match free {
        Draw::MirrorV(sep, _) => assert!(!sep),
        _ => panic!("power should map to a vertical mirror"),
    }
}

#[test]
fn operators_map_to_composition_rules() {
    let m = Draw::from_algexeno(&bin(Op::Mul, Expr::Const(1), Expr::Const(2))).unwrap();
    assert!(matches!(m, Draw::Chain(_)));
    let a = Draw::from_algexeno(&bin(Op::Add, Expr::Const(1), Expr::Const(2))).unwrap();
    assert!(matches!(a, Draw::Quote(_)));
}
