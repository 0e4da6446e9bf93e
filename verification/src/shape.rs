use crate::rat::Rat;
use crate::rat::rat_wf;
use vstd::prelude::*;

verus! {

/// Settings for converting a drawing shape into strokes.
pub struct Settings {
    /// The resolution of circle symbols: how many straight segments
    /// approximate one circle. Callers must keep it at least 1.
    pub circle_resolution: u32,
}

/// A point of a stroke.
///
/// Layout arithmetic is exact, so a point is either a plain rational pair
/// or a symbolic point on an axis-aligned ellipse: circles are emitted as
/// `Arc` endpoints and may be stretched by later non-uniform scaling.
#[derive(Clone, Copy, Debug, PartialEq, Eq, Structural)]
pub enum Pt {
    /// A plain point with rational coordinates.
    At {
        /// Horizontal coordinate.
        x: Rat,
        /// Vertical coordinate.
        y: Rat,
    },
    /// The point `(cx + rx*cos a, cy + ry*sin a)` at the angle
    /// `a = (turn/res)*tau - tau/4`, i.e. slice endpoint `turn` of a circle
    /// drawn clockwise from twelve o'clock in `res` slices.
    Arc {
        /// Horizontal center of the ellipse.
        cx: Rat,
        /// Vertical center of the ellipse.
        cy: Rat,
        /// Horizontal radius.
        rx: Rat,
        /// Vertical radius.
        ry: Rat,
        /// Which slice endpoint, from `0` to `res`.
        turn: u32,
        /// How many slices make the full circle.
        res: u32,
    },
}

/// One drawable line segment with a relative drawing duration.
///
/// Strokes are produced in a strict depth-first order that the playback
/// consumer honors; the weight is a relative time share, not a length.
#[derive(Clone, Copy, Debug, PartialEq, Eq, Structural)]
pub struct Stroke {
    /// Where the pen starts.
    pub from: Pt,
    /// Where the pen ends.
    pub to: Pt,
    /// Relative drawing duration of this segment.
    pub weight: Rat,
}

/// Represents a drawing shape.
pub enum Draw {
    /// Draw a circle.
    Circle {
        /// Center point of the circle.
        center: (Rat, Rat),
        /// Radius of the circle.
        radius: Rat,
    },
    /// Draw a line.
    Line {
        /// The point to draw a line from.
        from: (Rat, Rat),
        /// The point to draw a line to.
        to: (Rat, Rat),
    },
    /// Draw a sequence of shapes.
    Sequence(Vec<Draw>),
    /// Mirror up and down, with an optional separator line.
    ///
    /// The separator is added automatically if the
    /// text moves to the right to make room for symbols.
    MirrorV(bool, Box<(Draw, Draw)>),
    /// Chain commands (uses a circle as vertical separator).
    Chain(Box<(Draw, Draw)>),
    /// Quote commands (uses small lines to signify start and end).
    Quote(Box<(Draw, Draw)>),
}

/// The mathematical model of a `Draw`: the same tree with sequence
/// children as a `Seq`.
#[verifier::ext_equal]
pub enum SDraw {
    /// Model of `Draw::Circle`.
    Circle { cx: Rat, cy: Rat, radius: Rat },
    /// Model of `Draw::Line`.
    Line { x0: Rat, y0: Rat, x1: Rat, y1: Rat },
    /// Model of `Draw::Sequence`.
    Sequence(Seq<SDraw>),
    /// Model of `Draw::MirrorV`.
    MirrorV(bool, Box<(SDraw, SDraw)>),
    /// Model of `Draw::Chain`.
    Chain(Box<(SDraw, SDraw)>),
    /// Model of `Draw::Quote`.
    Quote(Box<(SDraw, SDraw)>),
}

/// The model of a drawing shape tree.
pub open spec fn view_draw(d: Draw) -> SDraw
    decreases d, 0nat,
{
    match d {
        Draw::Circle { center, radius } => SDraw::Circle { cx: center.0, cy: center.1, radius },
        Draw::Line { from, to } => SDraw::Line { x0: from.0, y0: from.1, x1: to.0, y1: to.1 },
        Draw::Sequence(cs) => SDraw::Sequence(view_draw_seq(cs@)),
        Draw::MirrorV(sep, ab) => SDraw::MirrorV(sep, Box::new((view_draw(ab.0), view_draw(ab.1)))),
        Draw::Chain(ab) => SDraw::Chain(Box::new((view_draw(ab.0), view_draw(ab.1)))),
        Draw::Quote(ab) => SDraw::Quote(Box::new((view_draw(ab.0), view_draw(ab.1)))),
    }
}

/// The models of the shapes of a sequence, in order.
pub open spec fn view_draw_seq(cs: Seq<Draw>) -> Seq<SDraw>
    decreases cs, cs.len() + 1nat,
{
    if cs.len() == 0 {
        Seq::empty()
    } else {
        seq![view_draw(cs[0])] + view_draw_seq(cs.subrange(1, cs.len() as int))
    }
}

/// `view_draw_seq` maps `view_draw` over the sequence, element by element.
pub proof fn lemma_view_draw_seq(cs: Seq<Draw>)
    ensures
        view_draw_seq(cs).len() == cs.len(),
        forall|i: int| 0 <= i < cs.len() ==> view_draw_seq(cs)[i] == view_draw(cs[i]),
    decreases cs.len(),
{
    if cs.len() > 0 {
        lemma_view_draw_seq(cs.subrange(1, cs.len() as int));
    }
}

impl View for Draw {
    type V = SDraw;

    open spec fn view(&self) -> SDraw {
        view_draw(*self)
    }
}

/// Every coordinate of the point is a well-formed rational.
pub open spec fn pt_wf(p: Pt) -> bool {
    match p {
        Pt::At { x, y } => rat_wf(x) && rat_wf(y),
        Pt::Arc { cx, cy, rx, ry, turn: _, res: _ } => rat_wf(cx) && rat_wf(cy) && rat_wf(rx)
            && rat_wf(ry),
    }
}

/// Every rational of the stroke is well-formed.
pub open spec fn stroke_wf(s: Stroke) -> bool {
    pt_wf(s.from) && pt_wf(s.to) && rat_wf(s.weight)
}

/// Every stroke of the sequence is well-formed.
pub open spec fn strokes_wf(ss: Seq<Stroke>) -> bool {
    forall|i: int| 0 <= i < ss.len() ==> stroke_wf(#[trigger] ss[i])
}

/// Every coordinate of the shape tree is a well-formed rational.
pub open spec fn draw_wf(d: SDraw) -> bool
    decreases d,
{
    match d {
        SDraw::Circle { cx, cy, radius } => rat_wf(cx) && rat_wf(cy) && rat_wf(radius),
        SDraw::Line { x0, y0, x1, y1 } => rat_wf(x0) && rat_wf(y0) && rat_wf(x1) && rat_wf(y1),
        SDraw::Sequence(cs) => forall|i: int| 0 <= i < cs.len() ==> draw_wf(#[trigger] cs[i]),
        SDraw::MirrorV(_, ab) => draw_wf(ab.0) && draw_wf(ab.1),
        SDraw::Chain(ab) => draw_wf(ab.0) && draw_wf(ab.1),
        SDraw::Quote(ab) => draw_wf(ab.0) && draw_wf(ab.1),
    }
}

fn check_wf_seq(cs: &Vec<Draw>, i: usize) -> (r: bool)
    requires
        i <= cs@.len(),
    ensures
        r == (forall|j: int| i <= j < cs@.len() ==> draw_wf(view_draw(#[trigger] cs@[j]))),
    decreases cs@, cs@.len() - i + 1nat,
{
    if i == cs.len() {
        true
    } else {
        let head = cs[i].check_wf();
        if !head {
            false
        } else {
            check_wf_seq(cs, i + 1)
        }
    }
}

impl Draw {
    /// Whether every coordinate of the shape tree is a well-formed
    /// rational, checked at run time; agrees with the well-formedness
    /// the flattener asks of its input.
    pub fn check_wf(&self) -> (r: bool)
        ensures
            r == draw_wf(self@),
        decreases *self, 0nat,
    {
        match self {
            Draw::Circle { center, radius } => center.0.den > 0 && center.1.den > 0 && radius.den
                > 0,
            Draw::Line { from, to } => from.0.den > 0 && from.1.den > 0 && to.0.den > 0 && to.1.den
                > 0,
            Draw::Sequence(cs) => {
                let r = check_wf_seq(cs, 0);
                proof {
                    lemma_view_draw_seq(cs@);
                    let vs = view_draw_seq(cs@);
                    if r {
                        assert forall|i: int| 0 <= i < vs.len() implies draw_wf(
                            #[trigger] vs[i],
                        ) by {
                            assert(vs[i] == view_draw(cs@[i]));
                            assert(draw_wf(view_draw(cs@[i])));
                        }
                        assert(draw_wf(view_draw(*self)));
                    } else {
                        let j = choose|j: int| 0 <= j < cs@.len() && !draw_wf(view_draw(cs@[j]));
                        assert(0 <= j < cs@.len() && !draw_wf(view_draw(cs@[j])));
                        assert(vs[j] == view_draw(cs@[j]));
                        assert(!draw_wf(vs[j]));
                        assert(view_draw(*self) == SDraw::Sequence(vs));
                        assert(!draw_wf(SDraw::Sequence(vs)));
                        assert(!draw_wf(view_draw(*self)));
                    }
                }
                r
            },
            Draw::MirrorV(_sep, ab) => ab.0.check_wf() && ab.1.check_wf(),
            Draw::Chain(ab) => ab.0.check_wf() && ab.1.check_wf(),
            Draw::Quote(ab) => ab.0.check_wf() && ab.1.check_wf(),
        }
    }
}

} // verus!
