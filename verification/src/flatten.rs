use crate::rat::Rat;
use crate::rat::c0;
use crate::rat::c1;
use crate::rat::half;
use crate::rat::three_quarters;
use crate::rat::rat_wf;
use crate::rat::srat_add;
use crate::rat::srat_mul;
use crate::rat::srat_sub;
use crate::rat::srat_max;
use crate::rat::rat_add;
use crate::rat::rat_mul;
use crate::rat::rat_sub;
use crate::rat::rat_max;
use crate::rat::lemma_add_wf;
use crate::rat::lemma_mul_wf;
use crate::rat::lemma_sub_wf;
use crate::shape::Draw;
use crate::shape::Pt;
use crate::shape::SDraw;
use crate::shape::Settings;
use crate::shape::Stroke;
use crate::shape::draw_wf;
use crate::shape::pt_wf;
use crate::shape::stroke_wf;
use crate::shape::strokes_wf;
use crate::shape::view_draw;
use crate::shape::view_draw_seq;
use crate::shape::lemma_view_draw_seq;
use vstd::prelude::*;

verus! {

/// Rational one tenth.
pub open spec fn tenth() -> Rat {
    Rat { num: 1, den: 10 }
}

/// The strokes of a circle of the given center and radius, one stroke
/// per angular slice, drawn clockwise from twelve o'clock, each with
/// an equal share of one unit of drawing time.
pub open spec fn circle_strokes(cx: Rat, cy: Rat, radius: Rat, res: u32) -> Seq<Stroke> {
    Seq::new(
        res as nat,
        |i: int|
            Stroke {
                from: Pt::Arc { cx, cy, rx: radius, ry: radius, turn: i as u32, res },
                to: Pt::Arc { cx, cy, rx: radius, ry: radius, turn: (i + 1) as u32, res },
                weight: Rat { num: 1, den: res as i64 },
            },
    )
}

/// The affine image `p + q * x` of one coordinate.
pub open spec fn smap_rat(p: Rat, q: Rat, x: Rat) -> Option<Rat> {
    match srat_mul(q, x) {
        Some(t) => srat_add(p, t),
        None => None,
    }
}

/// The image of a point under the affine map
/// `(x, y) -> (px + qx * x, py + qy * y)`; an arc point maps to the arc
/// point of the transformed ellipse, keeping its slice indices.
pub open spec fn smap_pt(px: Rat, qx: Rat, py: Rat, qy: Rat, p: Pt) -> Option<Pt> {
    match p {
        Pt::At { x, y } => match (smap_rat(px, qx, x), smap_rat(py, qy, y)) {
            (Some(x2), Some(y2)) => Some(Pt::At { x: x2, y: y2 }),
            _ => None,
        },
        Pt::Arc { cx, cy, rx, ry, turn, res } => match (
            smap_rat(px, qx, cx),
            smap_rat(py, qy, cy),
            srat_mul(qx, rx),
            srat_mul(qy, ry),
        ) {
            (Some(cx2), Some(cy2), Some(rx2), Some(ry2)) => Some(
                Pt::Arc { cx: cx2, cy: cy2, rx: rx2, ry: ry2, turn, res },
            ),
            _ => None,
        },
    }
}

/// The image of a stroke under the affine map: both endpoints move,
/// the weight is unchanged.
pub open spec fn smap_stroke(px: Rat, qx: Rat, py: Rat, qy: Rat, s: Stroke) -> Option<Stroke> {
    match (smap_pt(px, qx, py, qy, s.from), smap_pt(px, qx, py, qy, s.to)) {
        (Some(a), Some(b)) => Some(Stroke { from: a, to: b, weight: s.weight }),
        _ => None,
    }
}

/// The image of a stroke sequence under the affine map, or `None` as
/// soon as any coordinate leaves the machine range.
pub open spec fn smap_strokes(px: Rat, qx: Rat, py: Rat, qy: Rat, ss: Seq<Stroke>) -> Option<
    Seq<Stroke>,
> {
    if forall|i: int| 0 <= i < ss.len() ==> (#[trigger] smap_stroke(px, qx, py, qy, ss[i])) is Some {
        Some(Seq::new(ss.len(), |i: int| smap_stroke(px, qx, py, qy, ss[i])->0))
    } else {
        None
    }
}

/// The horizontal offset that centers a mirrored half of scaled extent
/// `cv` under a glyph of extent `mv`, written as the constant part of
/// the affine map `x -> off + (3/4) * x`.
pub open spec fn mirror_off(mv: Rat, cv: Rat) -> Option<Rat> {
    match srat_sub(mv, cv) {
        Some(t1) => match srat_mul(t1, half()) {
            Some(t2) => match srat_add(t2, half()) {
                Some(t3) => srat_sub(t3, Rat { num: 3, den: 8 }),
                None => None,
            },
            None => None,
        },
        None => None,
    }
}

/// The horizontal separator line of a mirrored glyph, reaching to `dx`.
pub open spec fn divider_stroke(dx: Rat) -> Stroke {
    Stroke {
        from: Pt::At { x: tenth(), y: half() },
        to: Pt::At { x: dx, y: half() },
        weight: c1(),
    }
}

/// Combines the flattened halves of a vertical mirror: both extents
/// shrink by `3/4`, a separator is drawn if forced or if either half
/// is wider than nothing, the top half is centered and compressed into
/// the upper part, the bottom half is flipped into the lower part, and
/// the larger scaled extent is reported upward.
pub open spec fn combine_mirror(sep0: bool, top: (Seq<Stroke>, Rat), bot: (Seq<Stroke>, Rat)) -> Option<
    (Seq<Stroke>, Rat),
> {
    match (srat_mul(top.1, three_quarters()), srat_mul(bot.1, three_quarters())) {
        (Some(av), Some(bv)) => {
            let mv = srat_max(av, bv);
            let sep = sep0 || mv.num != 0;
            let h = if sep {
                Rat { num: 9, den: 20 }
            } else {
                half()
            };
            let nh = if sep {
                Rat { num: -9i64, den: 20 }
            } else {
                Rat { num: -1i64, den: 2 }
            };
            match (mirror_off(mv, av), mirror_off(mv, bv)) {
                (Some(tpx), Some(bpx)) => match (
                    smap_strokes(tpx, three_quarters(), c0(), h, top.0),
                    smap_strokes(bpx, three_quarters(), c1(), nh, bot.0),
                ) {
                    (Some(ts), Some(bs)) => if sep {
                        match srat_add(mv, Rat { num: 9, den: 10 }) {
                            Some(dx) => Some((seq![divider_stroke(dx)] + ts + bs, mv)),
                            None => None,
                        }
                    } else {
                        Some((ts + bs, mv))
                    },
                    _ => None,
                },
                _ => None,
            }
        },
        _ => None,
    }
}

/// Combines the flattened halves of a chain. In scale mode both halves
/// are squeezed into the unit square around a small joining circle and
/// the extent is zero; in absolute mode the left half stays put, the
/// joining circle sits one unit past the left half's extent, the right
/// half shifts past it, and the occupied width is reported upward.
pub open spec fn combine_chain(scale: bool, res: u32, left: (Seq<Stroke>, Rat), right: (Seq<Stroke>, Rat)) -> Option<
    (Seq<Stroke>, Rat),
> {
    if scale {
        match (
            smap_strokes(c0(), half(), c0(), c1(), left.0),
            smap_strokes(half(), half(), c0(), c1(), right.0),
        ) {
            (Some(ls), Some(rs)) => Some(
                (ls + circle_strokes(half(), half(), tenth(), res) + rs, c0()),
            ),
            _ => None,
        }
    } else {
        match srat_add(left.1, c1()) {
            Some(jx) => match smap_strokes(jx, c1(), c0(), c1(), right.0) {
                Some(rs) => match srat_add(left.1, right.1) {
                    Some(s1) => match srat_add(s1, c1()) {
                        Some(e) => Some(
                            (left.0 + circle_strokes(jx, half(), tenth(), res) + rs, e),
                        ),
                        None => None,
                    },
                    None => None,
                },
                None => None,
            },
            None => None,
        }
    }
}

/// The small opening tick drawn before a quotation.
pub open spec fn open_tick() -> Stroke {
    Stroke {
        from: Pt::At { x: c0(), y: Rat { num: 19, den: 20 } },
        to: Pt::At { x: c0(), y: c1() },
        weight: c1(),
    }
}

/// The small closing tick drawn after a quotation, at `x`.
pub open spec fn close_tick(x: Rat) -> Stroke {
    Stroke {
        from: Pt::At { x, y: c0() },
        to: Pt::At { x, y: Rat { num: 1, den: 20 } },
        weight: c1(),
    }
}

/// Combines the flattened halves of a quotation: an opening tick, the
/// two halves (squeezed in scale mode; in absolute mode the right half
/// shifts one unit past the left half's extent, as in a chain), and a
/// closing tick past both.
pub open spec fn combine_quote(scale: bool, left: (Seq<Stroke>, Rat), right: (Seq<Stroke>, Rat)) -> Option<
    (Seq<Stroke>, Rat),
> {
    if scale {
        match (
            smap_strokes(c0(), half(), c0(), c1(), left.0),
            smap_strokes(half(), half(), c0(), c1(), right.0),
        ) {
            (Some(ls), Some(rs)) => Some(
                (seq![open_tick()] + ls + rs + seq![close_tick(c1())], c0()),
            ),
            _ => None,
        }
    } else {
        match srat_add(left.1, c1()) {
            Some(sx) => match smap_strokes(sx, c1(), c0(), c1(), right.0) {
                Some(rs) => match srat_add(left.1, right.1) {
                    Some(s1) => match (
                        srat_add(s1, Rat { num: 2, den: 1 }),
                        srat_add(s1, Rat { num: 11, den: 10 }),
                    ) {
                        (Some(tx), Some(e)) => Some(
                            (seq![open_tick()] + left.0 + rs + seq![close_tick(tx)], e),
                        ),
                        _ => None,
                    },
                    None => None,
                },
                None => None,
            },
            None => None,
        }
    }
}

/// The strokes and the layout extent of a shape tree, in emission
/// order, or `None` where a coordinate leaves the machine range.
pub open spec fn spec_flatten(d: SDraw, scale: bool, res: u32) -> Option<(Seq<Stroke>, Rat)>
    decreases d, 0nat,
{
    match d {
        SDraw::Line { x0, y0, x1, y1 } => Some(
            (
                seq![
                    Stroke {
                        from: Pt::At { x: x0, y: y0 },
                        to: Pt::At { x: x1, y: y1 },
                        weight: c1(),
                    },
                ],
                c0(),
            ),
        ),
        SDraw::Circle { cx, cy, radius } => Some((circle_strokes(cx, cy, radius, res), c0())),
        SDraw::Sequence(cs) => spec_flatten_seq(cs, scale, res),
        SDraw::MirrorV(sep0, ab) => match (
            spec_flatten(ab.1, scale, res),
            spec_flatten(ab.0, scale, res),
        ) {
            (Some(t), Some(b)) => combine_mirror(sep0, t, b),
            _ => None,
        },
        SDraw::Chain(ab) => match (spec_flatten(ab.0, scale, res), spec_flatten(ab.1, scale, res)) {
            (Some(l), Some(r)) => combine_chain(scale, res, l, r),
            _ => None,
        },
        SDraw::Quote(ab) => match (spec_flatten(ab.0, scale, res), spec_flatten(ab.1, scale, res)) {
            (Some(l), Some(r)) => combine_quote(scale, l, r),
            _ => None,
        },
    }
}

/// The strokes of a sequence of shapes, each child's in order; a
/// sequence is pass-through and reports extent zero.
pub open spec fn spec_flatten_seq(cs: Seq<SDraw>, scale: bool, res: u32) -> Option<
    (Seq<Stroke>, Rat),
>
    decreases cs, cs.len() + 1nat,
{
    if cs.len() == 0 {
        Some((Seq::empty(), c0()))
    } else {
        match spec_flatten(cs[0], scale, res) {
            Some(h) => match spec_flatten_seq(cs.subrange(1, cs.len() as int), scale, res) {
                Some(t) => Some((h.0 + t.0, c0())),
                None => None,
            },
            None => None,
        }
    }
}

proof fn lemma_circle_strokes_wf(cx: Rat, cy: Rat, radius: Rat, res: u32)
    requires
        rat_wf(cx),
        rat_wf(cy),
        rat_wf(radius),
    ensures
        strokes_wf(circle_strokes(cx, cy, radius, res)),
{
    assert forall|i: int| 0 <= i < circle_strokes(cx, cy, radius, res).len() implies stroke_wf(
        #[trigger] circle_strokes(cx, cy, radius, res)[i],
    ) by {
        assert(res as i64 > 0);
    }
}

fn map_rat_e(p: Rat, q: Rat, x: Rat) -> (r: Option<Rat>)
    requires
        rat_wf(p),
        rat_wf(q),
        rat_wf(x),
    ensures
        r == smap_rat(p, q, x),
        r matches Some(v) ==> rat_wf(v),
{
    match rat_mul(q, x) {
        Some(t) => {
            proof {
                lemma_mul_wf(q, x);
                lemma_add_wf(p, t);
            }
            rat_add(p, t)
        },
        None => None,
    }
}

fn map_pt_e(px: Rat, qx: Rat, py: Rat, qy: Rat, p: Pt) -> (r: Option<Pt>)
    requires
        rat_wf(px),
        rat_wf(qx),
        rat_wf(py),
        rat_wf(qy),
        pt_wf(p),
    ensures
        r == smap_pt(px, qx, py, qy, p),
        r matches Some(v) ==> pt_wf(v),
{
    match p {
        Pt::At { x, y } => {
            let x2 = match map_rat_e(px, qx, x) {
                Some(v) => v,
                None => {
                    return None;
                },
            };
            let y2 = match map_rat_e(py, qy, y) {
                Some(v) => v,
                None => {
                    return None;
                },
            };
            Some(Pt::At { x: x2, y: y2 })
        },
        Pt::Arc { cx, cy, rx, ry, turn, res } => {
            let cx2 = match map_rat_e(px, qx, cx) {
                Some(v) => v,
                None => {
                    return None;
                },
            };
            let cy2 = match map_rat_e(py, qy, cy) {
                Some(v) => v,
                None => {
                    return None;
                },
            };
            let rx2 = match rat_mul(qx, rx) {
                Some(v) => v,
                None => {
                    return None;
                },
            };
            let ry2 = match rat_mul(qy, ry) {
                Some(v) => v,
                None => {
                    return None;
                },
            };
            proof {
                lemma_mul_wf(qx, rx);
                lemma_mul_wf(qy, ry);
            }
            Some(Pt::Arc { cx: cx2, cy: cy2, rx: rx2, ry: ry2, turn, res })
        },
    }
}

fn map_stroke_e(px: Rat, qx: Rat, py: Rat, qy: Rat, s: Stroke) -> (r: Option<Stroke>)
    requires
        rat_wf(px),
        rat_wf(qx),
        rat_wf(py),
        rat_wf(qy),
        stroke_wf(s),
    ensures
        r == smap_stroke(px, qx, py, qy, s),
        r matches Some(v) ==> stroke_wf(v),
{
    let a = match map_pt_e(px, qx, py, qy, s.from) {
        Some(v) => v,
        None => {
            return None;
        },
    };
    let b = match map_pt_e(px, qx, py, qy, s.to) {
        Some(v) => v,
        None => {
            return None;
        },
    };
    Some(Stroke { from: a, to: b, weight: s.weight })
}

fn map_strokes_e(px: Rat, qx: Rat, py: Rat, qy: Rat, ss: &Vec<Stroke>) -> (r: Option<Vec<Stroke>>)
    requires
        rat_wf(px),
        rat_wf(qx),
        rat_wf(py),
        rat_wf(qy),
        strokes_wf(ss@),
    ensures
        (match r {
            Some(v) => smap_strokes(px, qx, py, qy, ss@) == Some(v@) && strokes_wf(v@),
            None => smap_strokes(px, qx, py, qy, ss@) is None,
        }),
{
    let mut out: Vec<Stroke> = Vec::new();
    let mut i: usize = 0;
    while i < ss.len()
        invariant
            i <= ss@.len(),
            out@.len() == i,
            rat_wf(px),
            rat_wf(qx),
            rat_wf(py),
            rat_wf(qy),
            strokes_wf(ss@),
            forall|j: int| 0 <= j < i ==> (#[trigger] smap_stroke(px, qx, py, qy, ss@[j])) is Some,
            forall|j: int| 0 <= j < i ==> out@[j] == smap_stroke(px, qx, py, qy, ss@[j])->0,
            strokes_wf(out@),
        decreases ss@.len() - i,
    {
        match map_stroke_e(px, qx, py, qy, ss[i]) {
            Some(s2) => {
                out.push(s2);
            },
            None => {
                proof {
                    assert(smap_stroke(px, qx, py, qy, ss@[i as int]) is None);
                }
                return None;
            },
        }
        i += 1;
    }
    proof {
        assert(out@ =~= Seq::new(ss@.len(), |j: int| smap_stroke(px, qx, py, qy, ss@[j])->0));
    }
    Some(out)
}

fn push_circle(cx: Rat, cy: Rat, radius: Rat, res: u32, out: &mut Vec<Stroke>)
    ensures
        final(out)@ == old(out)@ + circle_strokes(cx, cy, radius, res),
{
    let mut i: u32 = 0;
    while i < res
        invariant
            i <= res,
            out@ == old(out)@ + circle_strokes(cx, cy, radius, res).subrange(0, i as int),
        decreases res - i,
    {
        out.push(
            Stroke {
                from: Pt::Arc { cx, cy, rx: radius, ry: radius, turn: i, res },
                to: Pt::Arc { cx, cy, rx: radius, ry: radius, turn: i + 1, res },
                weight: Rat { num: 1, den: res as i64 },
            },
        );
        proof {
            assert(circle_strokes(cx, cy, radius, res).subrange(0, (i + 1) as int) =~= circle_strokes(
                cx,
                cy,
                radius,
                res,
            ).subrange(0, i as int).push(circle_strokes(cx, cy, radius, res)[i as int]));
            assert(out@ =~= old(out)@ + circle_strokes(cx, cy, radius, res).subrange(
                0,
                (i + 1) as int,
            ));
        }
        i += 1;
    }
    proof {
        assert(circle_strokes(cx, cy, radius, res).subrange(0, res as int) =~= circle_strokes(
            cx,
            cy,
            radius,
            res,
        ));
    }
}

fn mirror_off_e(mv: Rat, cv: Rat) -> (r: Option<Rat>)
    requires
        rat_wf(mv),
        rat_wf(cv),
    ensures
        r == mirror_off(mv, cv),
        r matches Some(v) ==> rat_wf(v),
{
    let hf = Rat { num: 1, den: 2 };
    let te = Rat { num: 3, den: 8 };
    let t1 = match rat_sub(mv, cv) {
        Some(v) => v,
        None => {
            return None;
        },
    };
    proof {
        lemma_sub_wf(mv, cv);
    }
    let t2 = match rat_mul(t1, hf) {
        Some(v) => v,
        None => {
            return None;
        },
    };
    proof {
        lemma_mul_wf(t1, hf);
    }
    let t3 = match rat_add(t2, hf) {
        Some(v) => v,
        None => {
            return None;
        },
    };
    proof {
        lemma_add_wf(t2, hf);
        lemma_sub_wf(t3, te);
    }
    rat_sub(t3, te)
}

fn combine_mirror_e(sep0: bool, top: (Vec<Stroke>, Rat), bot: (Vec<Stroke>, Rat)) -> (r: Option<
    (Vec<Stroke>, Rat),
>)
    requires
        strokes_wf(top.0@),
        rat_wf(top.1),
        strokes_wf(bot.0@),
        rat_wf(bot.1),
    ensures
        (match (r, combine_mirror(sep0, (top.0@, top.1), (bot.0@, bot.1))) {
            (Some(p), Some(q)) => p.0@ == q.0 && p.1 == q.1 && strokes_wf(p.0@) && rat_wf(p.1),
            (None, None) => true,
            _ => false,
        }),
{
    let tq = Rat { num: 3, den: 4 };
    let av = match rat_mul(top.1, tq) {
        Some(v) => v,
        None => {
            return None;
        },
    };
    let bv = match rat_mul(bot.1, tq) {
        Some(v) => v,
        None => {
            return None;
        },
    };
    proof {
        lemma_mul_wf(top.1, tq);
        lemma_mul_wf(bot.1, tq);
    }
    let mv = rat_max(av, bv);
    let sep = sep0 || mv.num != 0;
    let h = if sep {
        Rat { num: 9, den: 20 }
    } else {
        Rat { num: 1, den: 2 }
    };
    let nh = if sep {
        Rat { num: -9, den: 20 }
    } else {
        Rat { num: -1, den: 2 }
    };
    let tpx = match mirror_off_e(mv, av) {
        Some(v) => v,
        None => {
            return None;
        },
    };
    let bpx = match mirror_off_e(mv, bv) {
        Some(v) => v,
        None => {
            return None;
        },
    };
    let mut ts = match map_strokes_e(tpx, tq, Rat { num: 0, den: 1 }, h, &top.0) {
        Some(v) => v,
        None => {
            return None;
        },
    };
    let mut bs = match map_strokes_e(bpx, tq, Rat { num: 1, den: 1 }, nh, &bot.0) {
        Some(v) => v,
        None => {
            return None;
        },
    };
    let ghost ts0 = ts@;
    let ghost bs0 = bs@;
    let mut out: Vec<Stroke> = Vec::new();
    if sep {
        let dx = match rat_add(mv, Rat { num: 9, den: 10 }) {
            Some(v) => v,
            None => {
                return None;
            },
        };
        proof {
            lemma_add_wf(mv, Rat { num: 9, den: 10 });
        }
        out.push(
            Stroke {
                from: Pt::At { x: Rat { num: 1, den: 10 }, y: Rat { num: 1, den: 2 } },
                to: Pt::At { x: dx, y: Rat { num: 1, den: 2 } },
                weight: Rat { num: 1, den: 1 },
            },
        );
        out.append(&mut ts);
        out.append(&mut bs);
        proof {
            assert(out@ =~= seq![divider_stroke(dx)] + ts0 + bs0);
        }
        Some((out, mv))
    } else {
        out.append(&mut ts);
        out.append(&mut bs);
        proof {
            assert(out@ =~= ts0 + bs0);
        }
        Some((out, mv))
    }
}

fn combine_chain_e(scale: bool, res: u32, left: (Vec<Stroke>, Rat), right: (Vec<Stroke>, Rat)) -> (r:
    Option<(Vec<Stroke>, Rat)>)
    requires
        strokes_wf(left.0@),
        rat_wf(left.1),
        strokes_wf(right.0@),
        rat_wf(right.1),
    ensures
        (match (r, combine_chain(scale, res, (left.0@, left.1), (right.0@, right.1))) {
            (Some(p), Some(q)) => p.0@ == q.0 && p.1 == q.1 && strokes_wf(p.0@) && rat_wf(p.1),
            (None, None) => true,
            _ => false,
        }),
{
    let z = Rat { num: 0, den: 1 };
    let o = Rat { num: 1, den: 1 };
    let hf = Rat { num: 1, den: 2 };
    let tn = Rat { num: 1, den: 10 };
    if scale {
        let ls = match map_strokes_e(z, hf, z, o, &left.0) {
            Some(v) => v,
            None => {
                return None;
            },
        };
        let mut rs = match map_strokes_e(hf, hf, z, o, &right.0) {
            Some(v) => v,
            None => {
                return None;
            },
        };
        let ghost ls0 = ls@;
        let ghost rs0 = rs@;
        let mut out = ls;
        push_circle(hf, hf, tn, res, &mut out);
        out.append(&mut rs);
        proof {
            lemma_circle_strokes_wf(hf, hf, tn, res);
            assert(out@ =~= ls0 + circle_strokes(half(), half(), tenth(), res) + rs0);
        }
        Some((out, z))
    } else {
        let jx = match rat_add(left.1, o) {
            Some(v) => v,
            None => {
                return None;
            },
        };
        proof {
            lemma_add_wf(left.1, o);
        }
        let mut rs = match map_strokes_e(jx, o, z, o, &right.0) {
            Some(v) => v,
            None => {
                return None;
            },
        };
        let s1 = match rat_add(left.1, right.1) {
            Some(v) => v,
            None => {
                return None;
            },
        };
        proof {
            lemma_add_wf(left.1, right.1);
        }
        let e = match rat_add(s1, o) {
            Some(v) => v,
            None => {
                return None;
            },
        };
        proof {
            lemma_add_wf(s1, o);
        }
        let ghost l0 = left.0@;
        let ghost rs0 = rs@;
        let mut out = left.0;
        push_circle(jx, hf, tn, res, &mut out);
        out.append(&mut rs);
        proof {
            lemma_circle_strokes_wf(jx, hf, tn, res);
            assert(out@ =~= l0 + circle_strokes(jx, half(), tenth(), res) + rs0);
        }
        Some((out, e))
    }
}

fn combine_quote_e(scale: bool, left: (Vec<Stroke>, Rat), right: (Vec<Stroke>, Rat)) -> (r: Option<
    (Vec<Stroke>, Rat),
>)
    requires
        strokes_wf(left.0@),
        rat_wf(left.1),
        strokes_wf(right.0@),
        rat_wf(right.1),
    ensures
        (match (r, combine_quote(scale, (left.0@, left.1), (right.0@, right.1))) {
            (Some(p), Some(q)) => p.0@ == q.0 && p.1 == q.1 && strokes_wf(p.0@) && rat_wf(p.1),
            (None, None) => true,
            _ => false,
        }),
{
    let z = Rat { num: 0, den: 1 };
    let o = Rat { num: 1, den: 1 };
    let hf = Rat { num: 1, den: 2 };
    let tick_open = Stroke {
        from: Pt::At { x: z, y: Rat { num: 19, den: 20 } },
        to: Pt::At { x: z, y: o },
        weight: o,
    };
    if scale {
        let mut ls = match map_strokes_e(z, hf, z, o, &left.0) {
            Some(v) => v,
            None => {
                return None;
            },
        };
        let mut rs = match map_strokes_e(hf, hf, z, o, &right.0) {
            Some(v) => v,
            None => {
                return None;
            },
        };
        let ghost ls0 = ls@;
        let ghost rs0 = rs@;
        let mut out: Vec<Stroke> = Vec::new();
        out.push(tick_open);
        out.append(&mut ls);
        out.append(&mut rs);
        out.push(
            Stroke {
                from: Pt::At { x: o, y: z },
                to: Pt::At { x: o, y: Rat { num: 1, den: 20 } },
                weight: o,
            },
        );
        proof {
            assert(out@ =~= seq![open_tick()] + ls0 + rs0 + seq![close_tick(c1())]);
        }
        Some((out, z))
    } else {
        let sx = match rat_add(left.1, o) {
            Some(v) => v,
            None => {
                return None;
            },
        };
        proof {
            lemma_add_wf(left.1, o);
        }
        let mut rs = match map_strokes_e(sx, o, z, o, &right.0) {
            Some(v) => v,
            None => {
                return None;
            },
        };
        let s1 = match rat_add(left.1, right.1) {
            Some(v) => v,
            None => {
                return None;
            },
        };
        proof {
            lemma_add_wf(left.1, right.1);
        }
        let tx = match rat_add(s1, Rat { num: 2, den: 1 }) {
            Some(v) => v,
            None => {
                return None;
            },
        };
        let e = match rat_add(s1, Rat { num: 11, den: 10 }) {
            Some(v) => v,
            None => {
                return None;
            },
        };
        proof {
            lemma_add_wf(s1, Rat { num: 2, den: 1 });
            lemma_add_wf(s1, Rat { num: 11, den: 10 });
        }
        let ghost l0 = left.0@;
        let ghost rs0 = rs@;
        let mut out: Vec<Stroke> = Vec::new();
        out.push(tick_open);
        let mut lv = left.0;
        out.append(&mut lv);
        out.append(&mut rs);
        out.push(
            Stroke {
                from: Pt::At { x: tx, y: z },
                to: Pt::At { x: tx, y: Rat { num: 1, den: 20 } },
                weight: o,
            },
        );
        proof {
            assert(out@ =~= seq![open_tick()] + l0 + rs0 + seq![close_tick(tx)]);
        }
        Some((out, e))
    }
}

fn flatten(d: &Draw, scale: bool, res: u32) -> (r: Option<(Vec<Stroke>, Rat)>)
    requires
        draw_wf(view_draw(*d)),
    ensures
        (match (r, spec_flatten(view_draw(*d), scale, res)) {
            (Some(p), Some(q)) => p.0@ == q.0 && p.1 == q.1 && strokes_wf(p.0@) && rat_wf(p.1),
            (None, None) => true,
            _ => false,
        }),
    decreases *d, 0nat,
{
    match d {
        Draw::Line { from, to } => {
            let mut v: Vec<Stroke> = Vec::new();
            let s = Stroke {
                from: Pt::At { x: from.0, y: from.1 },
                to: Pt::At { x: to.0, y: to.1 },
                weight: Rat { num: 1, den: 1 },
            };
            v.push(s);
            proof {
                assert(v@ =~= seq![s]);
            }
            Some((v, Rat { num: 0, den: 1 }))
        },
        Draw::Circle { center, radius } => {
            let mut v: Vec<Stroke> = Vec::new();
            push_circle(center.0, center.1, *radius, res, &mut v);
            proof {
                lemma_circle_strokes_wf(center.0, center.1, *radius, res);
                assert(v@ =~= circle_strokes(center.0, center.1, *radius, res));
            }
            Some((v, Rat { num: 0, den: 1 }))
        },
        Draw::Sequence(cs) => {
            proof {
                lemma_view_draw_seq(cs@);
                assert(view_draw_seq(cs@).subrange(0, cs@.len() as int) =~= view_draw_seq(cs@));
                assert forall|j: int| 0 <= j < cs@.len() implies draw_wf(
                    view_draw(#[trigger] cs@[j]),
                ) by {
                    assert(draw_wf(view_draw_seq(cs@)[j]));
                }
            }
            flatten_seq(cs, 0, scale, res)
        },
        Draw::MirrorV(sep0, ab) => flatten_mirror(*sep0, ab, scale, res),
        Draw::Chain(ab) => flatten_chain(ab, scale, res),
        Draw::Quote(ab) => flatten_quote(ab, scale, res),
    }
}

fn flatten_mirror(sep0: bool, ab: &(Draw, Draw), scale: bool, res: u32) -> (r: Option<
    (Vec<Stroke>, Rat),
>)
    requires
        draw_wf(view_draw(ab.0)),
        draw_wf(view_draw(ab.1)),
    ensures
        (match (r, spec_flatten(
            SDraw::MirrorV(sep0, Box::new((view_draw(ab.0), view_draw(ab.1)))),
            scale,
            res,
        )) {
            (Some(p), Some(q)) => p.0@ == q.0 && p.1 == q.1 && strokes_wf(p.0@) && rat_wf(p.1),
            (None, None) => true,
            _ => false,
        }),
    decreases *ab, 2nat,
{
    let t = match flatten(&ab.1, scale, res) {
        Some(v) => v,
        None => {
            return None;
        },
    };
    let b = match flatten(&ab.0, scale, res) {
        Some(v) => v,
        None => {
            return None;
        },
    };
    combine_mirror_e(sep0, t, b)
}

fn flatten_chain(ab: &(Draw, Draw), scale: bool, res: u32) -> (r: Option<(Vec<Stroke>, Rat)>)
    requires
        draw_wf(view_draw(ab.0)),
        draw_wf(view_draw(ab.1)),
    ensures
        (match (r, spec_flatten(
            SDraw::Chain(Box::new((view_draw(ab.0), view_draw(ab.1)))),
            scale,
            res,
        )) {
            (Some(p), Some(q)) => p.0@ == q.0 && p.1 == q.1 && strokes_wf(p.0@) && rat_wf(p.1),
            (None, None) => true,
            _ => false,
        }),
    decreases *ab, 2nat,
{
    let l = match flatten(&ab.0, scale, res) {
        Some(v) => v,
        None => {
            return None;
        },
    };
    let rt = match flatten(&ab.1, scale, res) {
        Some(v) => v,
        None => {
            return None;
        },
    };
    combine_chain_e(scale, res, l, rt)
}

fn flatten_quote(ab: &(Draw, Draw), scale: bool, res: u32) -> (r: Option<(Vec<Stroke>, Rat)>)
    requires
        draw_wf(view_draw(ab.0)),
        draw_wf(view_draw(ab.1)),
    ensures
        (match (r, spec_flatten(
            SDraw::Quote(Box::new((view_draw(ab.0), view_draw(ab.1)))),
            scale,
            res,
        )) {
            (Some(p), Some(q)) => p.0@ == q.0 && p.1 == q.1 && strokes_wf(p.0@) && rat_wf(p.1),
            (None, None) => true,
            _ => false,
        }),
    decreases *ab, 2nat,
{
    let l = match flatten(&ab.0, scale, res) {
        Some(v) => v,
        None => {
            return None;
        },
    };
    let rt = match flatten(&ab.1, scale, res) {
        Some(v) => v,
        None => {
            return None;
        },
    };
    combine_quote_e(scale, l, rt)
}

fn flatten_seq(cs: &Vec<Draw>, i: usize, scale: bool, res: u32) -> (r: Option<(Vec<Stroke>, Rat)>)
    requires
        i <= cs@.len(),
        forall|j: int| 0 <= j < cs@.len() ==> draw_wf(view_draw(#[trigger] cs@[j])),
    ensures
        (match (r, spec_flatten_seq(
            view_draw_seq(cs@).subrange(i as int, cs@.len() as int),
            scale,
            res,
        )) {
            (Some(p), Some(q)) => p.0@ == q.0 && p.1 == q.1 && strokes_wf(p.0@) && rat_wf(p.1),
            (None, None) => true,
            _ => false,
        }),
    decreases cs@, cs@.len() - i + 1nat,
{
    proof {
        lemma_view_draw_seq(cs@);
    }
    let ghost tail = view_draw_seq(cs@).subrange(i as int, cs@.len() as int);
    if i == cs.len() {
        proof {
            assert(tail.len() == 0);
        }
        Some((Vec::new(), Rat { num: 0, den: 1 }))
    } else {
        let h = match flatten(&cs[i], scale, res) {
            Some(v) => v,
            None => {
                proof {
                    assert(tail[0] == view_draw(cs@[i as int]));
                }
                return None;
            },
        };
        let t = match flatten_seq(cs, i + 1, scale, res) {
            Some(v) => v,
            None => {
                proof {
                    assert(tail[0] == view_draw(cs@[i as int]));
                    assert(tail.subrange(1, tail.len() as int) =~= view_draw_seq(cs@).subrange(
                        i + 1,
                        cs@.len() as int,
                    ));
                }
                return None;
            },
        };
        let (mut hv, _he) = h;
        let (mut tv, _te) = t;
        let ghost hv0 = hv@;
        let ghost tv0 = tv@;
        hv.append(&mut tv);
        proof {
            assert(tail[0] == view_draw(cs@[i as int]));
            assert(tail.subrange(1, tail.len() as int) =~= view_draw_seq(cs@).subrange(
                i + 1,
                cs@.len() as int,
            ));
            assert(hv@ =~= hv0 + tv0);
        }
        Some((hv, Rat { num: 0, den: 1 }))
    }
}

impl Draw {
    /// Converts drawing shape to strokes.
    ///
    /// Appends the shape's strokes, in emission order, to the
    /// caller-owned list, and returns the shape's layout extent; in
    /// scale mode a chained or quoted glyph is normalized back into the
    /// unit square, in absolute mode true horizontal offsets accumulate.
    /// Returns `None`, appending nothing, in the one case the exact
    /// arithmetic cannot represent: a coordinate or extent whose
    /// numerator or denominator leaves the machine range.
    pub fn to_strokes(&self, scale: bool, strokes: &mut Vec<Stroke>, settings: &Settings) -> (r:
        Option<Rat>)
        requires
            draw_wf(self@),
            settings.circle_resolution >= 1,
        ensures
            (match (r, spec_flatten(self@, scale, settings.circle_resolution)) {
                (Some(e), Some(q)) => final(strokes)@ == old(strokes)@ + q.0 && e == q.1,
                (None, None) => final(strokes)@ == old(strokes)@,
                _ => false,
            }),
    {
        match flatten(self, scale, settings.circle_resolution) {
            Some((mut v, e)) => {
                strokes.append(&mut v);
                Some(e)
            },
            None => None,
        }
    }
}

} // verus!
