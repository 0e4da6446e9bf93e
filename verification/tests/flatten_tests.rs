use algexeno_cistercian::Draw;
use algexeno_cistercian::Expr;
use algexeno_cistercian::Op;
use algexeno_cistercian::Pt;
use algexeno_cistercian::Rat;
use algexeno_cistercian::Settings;
use algexeno_cistercian::Stroke;
use algexeno_cistercian::rat::rat_add;
use algexeno_cistercian::rat::rat_value_eq;

fn r(num: i64, den: i64) -> Rat {
    Rat { num, den }
}

fn at(x: Rat, y: Rat) -> Pt {
    Pt::At { x, y }
}

fn stroke(from: Pt, to: Pt, weight: Rat) -> Stroke {
    Stroke { from, to, weight }
}

fn arc(cx: Rat, cy: Rat, rad: Rat, turn: u32, res: u32) -> Pt {
    Pt::Arc { cx, cy, rx: rad, ry: rad, turn, res }
}

fn flat(d: &Draw, scale: bool, res: u32) -> (Vec<Stroke>, Rat) {
    let mut out: Vec<Stroke> = Vec::new();
    assert!(d.check_wf());
    assert!(res >= 1);
    let e = d
        .to_strokes(scale, &mut out, &Settings { circle_resolution: res })
        .expect("coordinates fit the machine range");
    (out, e)
}

fn flat_expr(e: &Expr, scale: bool, res: u32) -> (Vec<Stroke>, Rat) {
    let d = Draw::from_algexeno(e).unwrap();
    flat(&d, scale, res)
}

fn bin(op: Op, a: Expr, b: Expr) -> Expr {
    Expr::Bin(op, Box::new((a, b)))
}

fn stem_stroke() -> Stroke {
    stroke(at(r(1, 2), r(1, 1)), at(r(1, 2), r(0, 1)), r(1, 1))
}

#[test]
fn line_emits_one_unit_stroke() {
    let d = Draw::Line { from: (r(1, 2), r(1, 1)), to: (r(1, 2), r(0, 1)) };
    let (s, e) = flat(&d, false, 4);
    assert_eq!(s, vec![stem_stroke()]);
    assert_eq!(e, r(0, 1));
}

#[test]
fn every_digit_starts_with_the_stem() {
    for k in 0..=18u64 {
        let (s, _e) = flat_expr(&Expr::Const(k), false, 4);
        assert!(s.len() >= 1);
        assert_eq!(s[0], stem_stroke());
    }
}

#[test]
fn circle_emits_resolution_strokes() {
    let d = Draw::Circle { center: (r(1, 2), r(1, 2)), radius: r(1, 2) };
    let (s, e) = flat(&d, false, 6);
    assert_eq!(s.len(), 6);
    let mut sum = r(0, 1);
    for (i, st) in s.iter().enumerate() {
        assert_eq!(st.weight, r(1, 6));
        assert_eq!(st.from, arc(r(1, 2), r(1, 2), r(1, 2), i as u32, 6));
        assert_eq!(st.to, arc(r(1, 2), r(1, 2), r(1, 2), i as u32 + 1, 6));
        sum = rat_add(sum, st.weight).unwrap();
    }
    // the weights of a full circle sum to one unit of drawing time
    assert!(rat_value_eq(sum, r(1, 1)));
    // consecutive strokes share endpoints, and the polygon closes
    for i in 0..5 {
        assert_eq!(s[i].to, s[i + 1].from);
    }
    assert_eq!(e, r(0, 1));
}

#[test]
fn circle_resolution_one() {
    let d = Draw::Circle { center: (r(1, 2), r(1, 2)), radius: r(1, 2) };
    let (s, _e) = flat(&d, false, 1);
    assert_eq!(s.len(), 1);
    assert_eq!(s[0].weight, r(1, 1));
    assert_eq!(s[0].from, arc(r(1, 2), r(1, 2), r(1, 2), 0, 1));
    assert_eq!(s[0].to, arc(r(1, 2), r(1, 2), r(1, 2), 1, 1));
}

#[test]
fn flattening_is_deterministic() {
    let e = bin(
        Op::Add,
        bin(Op::Mul, Expr::Const(3), Expr::Orig(1)),
        bin(Op::Pow, Expr::Const(0), Expr::Const(7)),
    );
    let (s1, e1) = flat_expr(&e, false, 8);
    let (s2, e2) = flat_expr(&e, false, 8);
    assert_eq!(s1, s2);
    assert_eq!(e1, e2);
}

#[test]
fn mirror_without_separator_emits_no_divider() {
    let stem = || Draw::Line { from: (r(1, 2), r(1, 1)), to: (r(1, 2), r(0, 1)) };
    let d = Draw::MirrorV(false, Box::new((stem(), stem())));
    let (s, e) = flat(&d, false, 4);
    // exactly the two remapped halves, no divider line
    assert_eq!(s.len(), 2);
    // top half: centered horizontally, compressed into the upper half
    assert_eq!(
        s[0],
        stroke(
            at(r(2048, 4096), r(1, 2)),
            at(r(2048, 4096), r(0, 2)),
            r(1, 1),
        )
    );
    // bottom half: flipped into the lower half
    assert_eq!(
        s[1],
        stroke(
            at(r(2048, 4096), r(1, 2)),
            at(r(2048, 4096), r(2, 2)),
            r(1, 1),
        )
    );
    assert_eq!(e, r(0, 4));
}

#[test]
fn mirror_with_forced_separator_emits_divider_first() {
    let stem = || Draw::Line { from: (r(1, 2), r(1, 1)), to: (r(1, 2), r(0, 1)) };
    let d = Draw::MirrorV(true, Box::new((stem(), stem())));
    let (s, e) = flat(&d, false, 4);
    assert_eq!(s.len(), 3);
    // the divider comes first: a unit-weight horizontal line at half height
    assert_eq!(
        s[0],
        stroke(at(r(1, 10), r(1, 2)), at(r(36, 40), r(1, 2)), r(1, 1))
    );
    // top stem compressed by the 0.45 height factor
    assert_eq!(
        s[1],
        stroke(at(r(2048, 4096), r(9, 20)), at(r(2048, 4096), r(0, 20)), r(1, 1))
    );
    // bottom stem flipped below the divider
    assert_eq!(
        s[2],
        stroke(at(r(2048, 4096), r(11, 20)), at(r(2048, 4096), r(20, 20)), r(1, 1))
    );
    assert_eq!(e, r(0, 4));
}

#[test]
fn chain_absolute_mode_end_to_end() {
    // two bare stems chained: left stem, joining circle at x = 1,
    // right stem shifted past it; extent 0 + 0 + 1 = 1
    let e = bin(Op::Mul, Expr::Const(0), Expr::Const(0));
    let (s, ext) = flat_expr(&e, false, 4);
    assert_eq!(s.len(), 6);
    assert_eq!(s[0], stem_stroke());
    for i in 0..4u32 {
        assert_eq!(
            s[1 + i as usize],
            stroke(
                arc(r(1, 1), r(1, 2), r(1, 10), i, 4),
                arc(r(1, 1), r(1, 2), r(1, 10), i + 1, 4),
                r(1, 4),
            )
        );
    }
    assert_eq!(
        s[5],
        stroke(at(r(3, 2), r(1, 1)), at(r(3, 2), r(0, 1)), r(1, 1))
    );
    assert_eq!(ext, r(1, 1));
}

#[test]
fn pow_end_to_end() {
    // a power of two bare stems: forced separator first, then the
    // compressed top stem, then the flipped bottom stem
    let e = bin(Op::Pow, Expr::Const(0), Expr::Const(0));
    let d = Draw::from_algexeno(&e).unwrap();
    assert!(matches!(d, Draw::MirrorV(true, _)));
    let (s, ext) = flat(&d, false, 4);
    assert_eq!(s.len(), 3);
    assert_eq!(
        s[0],
        stroke(at(r(1, 10), r(1, 2)), at(r(36, 40), r(1, 2)), r(1, 1))
    );
    assert_eq!(
        s[1],
        stroke(at(r(2048, 4096), r(9, 20)), at(r(2048, 4096), r(0, 20)), r(1, 1))
    );
    assert_eq!(
        s[2],
        stroke(at(r(2048, 4096), r(11, 20)), at(r(2048, 4096), r(20, 20)), r(1, 1))
    );
    assert_eq!(ext, r(0, 4));
}

#[test]
fn quote_absolute_mode() {
    let e = bin(Op::Add, Expr::Const(0), Expr::Const(0));
    let (s, ext) = flat_expr(&e, false, 2);
    assert_eq!(s.len(), 4);
    // opening tick
    assert_eq!(
        s[0],
        stroke(at(r(0, 1), r(19, 20)), at(r(0, 1), r(1, 1)), r(1, 1))
    );
    // left stem unchanged
    assert_eq!(s[1], stem_stroke());
    // right stem shifted one unit past the (zero-extent) left half
    assert_eq!(
        s[2],
        stroke(at(r(3, 2), r(1, 1)), at(r(3, 2), r(0, 1)), r(1, 1))
    );
    // closing tick at x = 0 + 0 + 2
    assert_eq!(
        s[3],
        stroke(at(r(2, 1), r(0, 1)), at(r(2, 1), r(1, 20)), r(1, 1))
    );
    assert_eq!(ext, r(11, 10));
}

#[test]
fn quote_absolute_counts_left_extent() {
    // a chain of two stems (extent 1) quoted with a bare stem: the
    // right child shifts one unit past the left extent, to x = 5/2,
    // clear of the left chain's own right stem at x = 3/2
    let e = bin(
        Op::Add,
        bin(Op::Mul, Expr::Const(0), Expr::Const(0)),
        Expr::Const(0),
    );
    let (s, ext) = flat_expr(&e, false, 4);
    assert_eq!(s.len(), 9);
    // opening tick
    assert_eq!(
        s[0],
        stroke(at(r(0, 1), r(19, 20)), at(r(0, 1), r(1, 1)), r(1, 1))
    );
    // the left chain, unchanged: stem, joining circle, shifted stem
    assert_eq!(s[1], stem_stroke());
    for i in 0..4u32 {
        assert_eq!(
            s[2 + i as usize],
            stroke(
                arc(r(1, 1), r(1, 2), r(1, 10), i, 4),
                arc(r(1, 1), r(1, 2), r(1, 10), i + 1, 4),
                r(1, 4),
            )
        );
    }
    assert_eq!(
        s[6],
        stroke(at(r(3, 2), r(1, 1)), at(r(3, 2), r(0, 1)), r(1, 1))
    );
    // the quoted right stem, past the left extent plus one
    assert_eq!(
        s[7],
        stroke(at(r(5, 2), r(1, 1)), at(r(5, 2), r(0, 1)), r(1, 1))
    );
    // closing tick at x = 1 + 0 + 2
    assert_eq!(
        s[8],
        stroke(at(r(3, 1), r(0, 1)), at(r(3, 1), r(1, 20)), r(1, 1))
    );
    // extent 1 + 0 + 1.1
    assert_eq!(ext, r(21, 10));
}

#[test]
fn chain_scale_mode() {
    // the recognized but normally unused mode: both halves squeezed
    // into the unit square, extent reported as zero
    let e = bin(Op::Mul, Expr::Const(0), Expr::Const(0));
    let (s, ext) = flat_expr(&e, true, 2);
    assert_eq!(s.len(), 4);
    assert_eq!(
        s[0],
        stroke(at(r(1, 4), r(1, 1)), at(r(1, 4), r(0, 1)), r(1, 1))
    );
    assert_eq!(
        s[1],
        stroke(
            arc(r(1, 2), r(1, 2), r(1, 10), 0, 2),
            arc(r(1, 2), r(1, 2), r(1, 10), 1, 2),
            r(1, 2),
        )
    );
    assert_eq!(
        s[2],
        stroke(
            arc(r(1, 2), r(1, 2), r(1, 10), 1, 2),
            arc(r(1, 2), r(1, 2), r(1, 10), 2, 2),
            r(1, 2),
        )
    );
    assert_eq!(
        s[3],
        stroke(at(r(6, 8), r(1, 1)), at(r(6, 8), r(0, 1)), r(1, 1))
    );
    assert_eq!(ext, r(0, 1));
}

#[test]
fn quote_scale_mode() {
    let e = bin(Op::Add, Expr::Const(0), Expr::Const(0));
    let (s, ext) = flat_expr(&e, true, 2);
    assert_eq!(s.len(), 4);
    assert_eq!(
        s[0],
        stroke(at(r(0, 1), r(19, 20)), at(r(0, 1), r(1, 1)), r(1, 1))
    );
    assert_eq!(
        s[1],
        stroke(at(r(1, 4), r(1, 1)), at(r(1, 4), r(0, 1)), r(1, 1))
    );
    assert_eq!(
        s[2],
        stroke(at(r(6, 8), r(1, 1)), at(r(6, 8), r(0, 1)), r(1, 1))
    );
    // closing tick of the normalized glyph sits at x = 1
    assert_eq!(
        s[3],
        stroke(at(r(1, 1), r(0, 1)), at(r(1, 1), r(1, 20)), r(1, 1))
    );
    assert_eq!(ext, r(0, 1));
}

#[test]
fn orig_one_circle_with_stem() {
    let (s, ext) = flat_expr(&Expr::Orig(1), false, 3);
    assert_eq!(s.len(), 4);
    for i in 0..3u32 {
        assert_eq!(
            s[i as usize],
            stroke(
                arc(r(1, 2), r(1, 2), r(1, 2), i, 3),
                arc(r(1, 2), r(1, 2), r(1, 2), i + 1, 3),
                r(1, 3),
            )
        );
    }
    assert_eq!(
        s[3],
        stroke(at(r(1, 2), r(0, 1)), at(r(1, 2), r(1, 2)), r(1, 1))
    );
    assert_eq!(ext, r(0, 1));
}

#[test]
fn to_strokes_appends_to_caller_buffer() {
    let d = Draw::Line { from: (r(1, 2), r(1, 1)), to: (r(1, 2), r(0, 1)) };
    let mut out = vec![stem_stroke()];
    let e = d.to_strokes(false, &mut out, &Settings { circle_resolution: 4 });
    assert_eq!(e, Some(r(0, 1)));
    assert_eq!(out.len(), 2);
    assert_eq!(out[0], stem_stroke());
    assert_eq!(out[1], stem_stroke());
}
