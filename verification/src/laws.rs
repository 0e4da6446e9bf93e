use crate::builder::Expr;
use crate::builder::digit_branches;
use crate::builder::spec_build;
use crate::builder::stem;
use crate::builder::valid_expr;
use crate::flatten::circle_strokes;
use crate::flatten::close_tick;
use crate::flatten::divider_stroke;
use crate::flatten::open_tick;
use crate::flatten::smap_strokes;
use crate::flatten::spec_flatten;
use crate::flatten::spec_flatten_seq;
use crate::flatten::tenth;
use crate::rat::Rat;
use crate::rat::c0;
use crate::rat::c1;
use crate::rat::half;
use crate::rat::three_quarters;
use crate::rat::srat_add;
use crate::rat::srat_max;
use crate::rat::srat_mul;
use crate::shape::Pt;
use crate::shape::SDraw;
use crate::shape::Stroke;
use vstd::prelude::*;

verus! {

/// The stroke of the base stem: the pen drawn from the top of the unit
/// square straight down to the bottom.
pub open spec fn stem_stroke() -> Stroke {
    Stroke {
        from: Pt::At { x: half(), y: c1() },
        to: Pt::At { x: half(), y: c0() },
        weight: c1(),
    }
}

/// Whether a shape is a plain line.
pub open spec fn is_line(d: SDraw) -> bool {
    d matches SDraw::Line { .. }
}

/// The one stroke a plain line flattens to.
pub open spec fn line_stroke(d: SDraw) -> Stroke {
    match d {
        SDraw::Line { x0, y0, x1, y1 } => Stroke {
            from: Pt::At { x: x0, y: y0 },
            to: Pt::At { x: x1, y: y1 },
            weight: c1(),
        },
        _ => stem_stroke(),
    }
}

proof fn lemma_flatten_line_seq(cs: Seq<SDraw>, scale: bool, res: u32)
    requires
        forall|i: int| 0 <= i < cs.len() ==> is_line(#[trigger] cs[i]),
    ensures
        spec_flatten_seq(cs, scale, res) matches Some(p) && p.0.len() == cs.len() && p.1 == c0()
            && (forall|i: int| 0 <= i < cs.len() ==> p.0[i] == line_stroke(#[trigger] cs[i])),
    decreases cs.len(),
{
    if cs.len() > 0 {
        let tail = cs.subrange(1, cs.len() as int);
        lemma_flatten_line_seq(tail, scale, res);
        let p = spec_flatten_seq(cs, scale, res)->0;
        let q = spec_flatten_seq(tail, scale, res)->0;
        match cs[0] {
            SDraw::Line { x0, y0, x1, y1 } => {
                assert(spec_flatten(cs[0], scale, res) == Some(
                    (
                        seq![
                            Stroke {
                                from: Pt::At { x: x0, y: y0 },
                                to: Pt::At { x: x1, y: y1 },
                                weight: c1(),
                            },
                        ],
                        c0(),
                    ),
                ));
            },
            _ => {
                assert(false);
            },
        }
        assert(p.0 == seq![line_stroke(cs[0])] + q.0);
        assert forall|i: int| 0 <= i < cs.len() implies p.0[i] == line_stroke(#[trigger] cs[i]) by {
            if i > 0 {
                assert(p.0[i] == q.0[i - 1]);
                assert(tail[i - 1] == cs[i]);
            }
        }
    }
}

/// Every digit glyph extends the base stem: for each digit the builder
/// succeeds, and the glyph's flattening succeeds and emits the stem
/// stroke, drawn from the top of the unit square to the bottom, as its
/// first stroke.
#[verifier::rlimit(100)]
pub proof fn lemma_digit_stem(k: u64, scale: bool, res: u32)
    requires
        k <= 18,
    ensures
        valid_expr(Expr::Const(k)),
        spec_flatten(spec_build(Expr::Const(k)), scale, res) matches Some(p) && p.0.len() >= 1
            && p.0[0] == stem_stroke(),
{
    if k == 0 {
        assert(spec_flatten(spec_build(Expr::Const(k)), scale, res) matches Some(p) && p.0.len()
            >= 1 && p.0[0] == stem_stroke());
    } else {
        let cs = seq![stem()] + digit_branches(k);
        assert(forall|i: int| 0 <= i < cs.len() ==> is_line(#[trigger] cs[i]));
        lemma_flatten_line_seq(cs, scale, res);
        assert(line_stroke(cs[0]) == stem_stroke());
    }
}

/// Flattening is deterministic: two flattenings of the same shape tree
/// with the same settings yield the same strokes and the same extent.
/// Together with the flattener's contract, which pins its output to
/// `spec_flatten`, any two runs on equal inputs agree stroke for
/// stroke.
pub proof fn lemma_flatten_deterministic(
    d: SDraw,
    scale: bool,
    res: u32,
    r1: (Seq<Stroke>, Rat),
    r2: (Seq<Stroke>, Rat),
)
    requires
        spec_flatten(d, scale, res) == Some(r1),
        spec_flatten(d, scale, res) == Some(r2),
    ensures
        r1 == r2,
{
}

/// The running sum of the weights of a stroke sequence, as an exact
/// unreduced rational: a numerator and a denominator pair.
pub open spec fn weight_sum(ss: Seq<Stroke>) -> (int, int)
    decreases ss.len(),
{
    if ss.len() == 0 {
        (0int, 1int)
    } else {
        let rest = weight_sum(ss.subrange(1, ss.len() as int));
        (ss[0].weight.num * rest.1 + rest.0 * ss[0].weight.den, ss[0].weight.den * rest.1)
    }
}

proof fn lemma_uniform_weight_sum(ss: Seq<Stroke>, n: i64)
    requires
        n >= 1,
        forall|i: int| 0 <= i < ss.len() ==> (#[trigger] ss[i]).weight == (Rat { num: 1, den: n }),
    ensures
        weight_sum(ss).1 > 0,
        weight_sum(ss).0 * n == ss.len() * weight_sum(ss).1,
    decreases ss.len(),
{
    if ss.len() == 0 {
        assert(weight_sum(ss) == (0int, 1int));
        assert(weight_sum(ss).0 * n == ss.len() * weight_sum(ss).1) by (nonlinear_arith)
            requires
                weight_sum(ss).0 == 0,
                weight_sum(ss).1 == 1,
                ss.len() == 0,
        ;
    } else {
        let tail = ss.subrange(1, ss.len() as int);
        lemma_uniform_weight_sum(tail, n);
        let rs = weight_sum(tail);
        let ws = weight_sum(ss);
        reveal_with_fuel(weight_sum, 2);
        assert(ss[0].weight == (Rat { num: 1, den: n }));
        assert(ws == (
            ss[0].weight.num * rs.1 + rs.0 * ss[0].weight.den,
            ss[0].weight.den * rs.1,
        ));
        assert(ss[0].weight.num == 1);
        assert(ss[0].weight.den == n);
        assert(ws.0 == 1 * rs.1 + rs.0 * n);
        assert(ws.1 == n * rs.1);
        assert(ws.0 == rs.1 + rs.0 * n && ws.1 == n * rs.1);
        assert(weight_sum(ss).1 > 0) by (nonlinear_arith)
            requires
                weight_sum(ss).1 == n * rs.1,
                n >= 1,
                rs.1 > 0,
        ;
        assert(weight_sum(ss).0 * n == ss.len() * weight_sum(ss).1) by (nonlinear_arith)
            requires
                weight_sum(ss).0 == rs.1 + rs.0 * n,
                weight_sum(ss).1 == n * rs.1,
                rs.0 * n == (ss.len() - 1) * rs.1,
                ss.len() >= 1,
        ;
    }
}

/// A circle flattens to exactly `res` strokes: each carries an equal
/// `1/res` share of one unit of drawing time, the shares sum to one,
/// consecutive strokes share their endpoints, and the first and last
/// endpoints close the polygon (slice `0` and slice `res` of the same
/// circle, which denote the same point of the plane).
pub proof fn lemma_circle_resolution(cx: Rat, cy: Rat, radius: Rat, scale: bool, res: u32)
    requires
        res >= 1,
    ensures
        spec_flatten(SDraw::Circle { cx, cy, radius }, scale, res) matches Some(p) && {
            let s = p.0;
            s.len() == res && (forall|i: int|
                0 <= i < res ==> (#[trigger] s[i]).weight == (Rat { num: 1, den: res as i64 }))
                && (forall|i: int| 0 <= i < res - 1 ==> (#[trigger] s[i]).to == s[i + 1].from) && s[0].from
                == (Pt::Arc { cx, cy, rx: radius, ry: radius, turn: 0, res }) && s[res - 1].to == (
            Pt::Arc { cx, cy, rx: radius, ry: radius, turn: res, res }) && weight_sum(s).1 > 0
                && weight_sum(s).0 == weight_sum(s).1
        },
{
    let s = circle_strokes(cx, cy, radius, res);
    assert(forall|i: int| 0 <= i < res ==> (#[trigger] s[i]).weight == (Rat {
        num: 1,
        den: res as i64,
    }));
    lemma_uniform_weight_sum(s, res as i64);
    assert(weight_sum(s).0 * (res as i64) == (res as int) * weight_sum(s).1);
    assert(weight_sum(s).0 == weight_sum(s).1) by (nonlinear_arith)
        requires
            weight_sum(s).0 * (res as i64) == (res as int) * weight_sum(s).1,
            res >= 1,
    ;
}

/// A vertical mirror whose halves both have extent zero and whose
/// separator is not forced emits no divider: its output is exactly the
/// two remapped halves, and its extent is zero again.
pub proof fn lemma_mirror_no_divider(
    d_top: SDraw,
    d_bot: SDraw,
    scale: bool,
    res: u32,
    t: (Seq<Stroke>, Rat),
    b: (Seq<Stroke>, Rat),
    m: (Seq<Stroke>, Rat),
)
    requires
        spec_flatten(d_top, scale, res) == Some(t),
        spec_flatten(d_bot, scale, res) == Some(b),
        t.1.num == 0,
        b.1.num == 0,
        spec_flatten(SDraw::MirrorV(false, Box::new((d_bot, d_top))), scale, res) == Some(m),
    ensures
        m.0.len() == t.0.len() + b.0.len(),
        m.1.num == 0,
{
}

/// A vertical mirror with a forced separator emits exactly one divider
/// line, as its first stroke: a unit-weight horizontal line at half
/// height, from `x = 1/10` out to the scaled extent plus `9/10`.
pub proof fn lemma_mirror_forced_divider(
    d_top: SDraw,
    d_bot: SDraw,
    scale: bool,
    res: u32,
    t: (Seq<Stroke>, Rat),
    b: (Seq<Stroke>, Rat),
    m: (Seq<Stroke>, Rat),
)
    requires
        spec_flatten(d_top, scale, res) == Some(t),
        spec_flatten(d_bot, scale, res) == Some(b),
        spec_flatten(SDraw::MirrorV(true, Box::new((d_bot, d_top))), scale, res) == Some(m),
    ensures
        m.0.len() == 1 + t.0.len() + b.0.len(),
        srat_mul(t.1, three_quarters()) is Some,
        srat_mul(b.1, three_quarters()) is Some,
        ({
            let mv = srat_max(srat_mul(t.1, three_quarters())->0, srat_mul(b.1, three_quarters())->0);
            srat_add(mv, Rat { num: 9, den: 10 }) is Some && m.0[0] == divider_stroke(
                srat_add(mv, Rat { num: 9, den: 10 })->0,
            ) && m.1 == mv
        }),
        m.0[0].from == (Pt::At { x: tenth(), y: half() }),
        m.0[0].weight == c1(),
{
}

/// A chain in absolute mode leaves the left half where it is, reports
/// the occupied width `av + bv + 1` upward, and centers its joining
/// circle one unit past the left half's extent, at `x = av + 1`.
pub proof fn lemma_chain_absolute(
    d_left: SDraw,
    d_right: SDraw,
    res: u32,
    l: (Seq<Stroke>, Rat),
    r: (Seq<Stroke>, Rat),
    m: (Seq<Stroke>, Rat),
)
    requires
        spec_flatten(d_left, false, res) == Some(l),
        spec_flatten(d_right, false, res) == Some(r),
        spec_flatten(SDraw::Chain(Box::new((d_left, d_right))), false, res) == Some(m),
    ensures
        srat_add(l.1, r.1) is Some,
        srat_add(srat_add(l.1, r.1)->0, c1()) is Some,
        m.1 == srat_add(srat_add(l.1, r.1)->0, c1())->0,
        srat_add(l.1, c1()) is Some,
        m.0.len() == l.0.len() + res + r.0.len(),
        m.0.subrange(0, l.0.len() as int) == l.0,
        m.0.subrange(l.0.len() as int, l.0.len() + res as int) == circle_strokes(
            srat_add(l.1, c1())->0,
            half(),
            tenth(),
            res,
        ),
{
    let jx = srat_add(l.1, c1())->0;
    let circle = circle_strokes(jx, half(), tenth(), res);
    let rs = crate::flatten::smap_strokes(jx, c1(), c0(), c1(), r.0)->0;
    assert(m.0 == l.0 + circle + rs);
    assert(m.0.subrange(0, l.0.len() as int) =~= l.0);
    assert(m.0.subrange(l.0.len() as int, l.0.len() + res as int) =~= circle);
}

/// A quotation in absolute mode emits the opening tick first, then the
/// left half where it is, then the right half shifted one unit past
/// the left half's extent, then the closing tick at `av + bv + 2`; the
/// reported extent is `av + bv + 1.1`.
pub proof fn lemma_quote_absolute(
    d_left: SDraw,
    d_right: SDraw,
    res: u32,
    l: (Seq<Stroke>, Rat),
    r: (Seq<Stroke>, Rat),
    m: (Seq<Stroke>, Rat),
)
    requires
        spec_flatten(d_left, false, res) == Some(l),
        spec_flatten(d_right, false, res) == Some(r),
        spec_flatten(SDraw::Quote(Box::new((d_left, d_right))), false, res) == Some(m),
    ensures
        srat_add(l.1, r.1) is Some,
        srat_add(srat_add(l.1, r.1)->0, Rat { num: 11, den: 10 }) is Some,
        m.1 == srat_add(srat_add(l.1, r.1)->0, Rat { num: 11, den: 10 })->0,
        srat_add(l.1, c1()) is Some,
        smap_strokes(srat_add(l.1, c1())->0, c1(), c0(), c1(), r.0) is Some,
        m.0.len() == 2 + l.0.len() + r.0.len(),
        m.0[0] == open_tick(),
        m.0.subrange(1, 1 + l.0.len() as int) == l.0,
        m.0.subrange(1 + l.0.len() as int, 1 + l.0.len() + r.0.len() as int) == smap_strokes(
            srat_add(l.1, c1())->0,
            c1(),
            c0(),
            c1(),
            r.0,
        )->0,
        srat_add(srat_add(l.1, r.1)->0, Rat { num: 2, den: 1 }) is Some,
        m.0[m.0.len() - 1] == close_tick(srat_add(srat_add(l.1, r.1)->0, Rat { num: 2, den: 1 })->0),
{
    let sx = srat_add(l.1, c1())->0;
    let rs = smap_strokes(sx, c1(), c0(), c1(), r.0)->0;
    let s1 = srat_add(l.1, r.1)->0;
    let tx = srat_add(s1, Rat { num: 2, den: 1 })->0;
    assert(m.0 == seq![open_tick()] + l.0 + rs + seq![close_tick(tx)]);
    assert(m.0.subrange(1, 1 + l.0.len() as int) =~= l.0);
    assert(m.0.subrange(1 + l.0.len() as int, 1 + l.0.len() + r.0.len() as int) =~= rs);
    assert(m.0[m.0.len() - 1] == close_tick(tx));
}

} // verus!
