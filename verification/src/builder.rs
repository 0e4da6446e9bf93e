use crate::rat::Rat;
use crate::rat::c0;
use crate::rat::c1;
use crate::rat::half;
use crate::rat::quarter;
use crate::rat::three_quarters;
use crate::shape::Draw;
use crate::shape::SDraw;
use crate::shape::draw_wf;
use crate::shape::view_draw_seq;
use crate::shape::lemma_view_draw_seq;
use vstd::prelude::*;

verus! {

/// A binary operator of the numeral encoding.
#[derive(Clone, Copy, Debug, PartialEq, Eq, Structural)]
pub enum Op {
    /// Addition.
    Add,
    /// Multiplication.
    Mul,
    /// Exponentiation.
    Pow,
}

/// A numeral-encoding expression tree, consumed read-only by the builder.
///
/// Only `Orig(0)`, `Orig(1)`, `Const(0..=18)` and `Bin` nodes whose
/// children are themselves valid have a glyph; everything else is a
/// mapping failure.
#[derive(Debug)]
pub enum Expr {
    /// An unevaluated numeral index.
    Orig(u64),
    /// One of the nineteen primitive digit glyphs.
    Const(u64),
    /// A binary node.
    Bin(Op, Box<(Expr, Expr)>),
}

/// The exact domain of the builder: the recursive closure of `Orig(0)`,
/// `Orig(1)`, `Const(0..=18)` and `Bin` over valid children.
pub open spec fn valid_expr(e: Expr) -> bool
    decreases e,
{
    match e {
        Expr::Orig(n) => n == 0 || n == 1,
        Expr::Const(k) => k <= 18,
        Expr::Bin(_op, ab) => valid_expr(ab.0) && valid_expr(ab.1),
    }
}

/// A line shape between two plain points.
pub open spec fn sline(x0: Rat, y0: Rat, x1: Rat, y1: Rat) -> SDraw {
    SDraw::Line { x0, y0, x1, y1 }
}

/// The base stem shared by every digit glyph: a vertical line drawn
/// from the top of the unit square to the bottom.
pub open spec fn stem() -> SDraw {
    sline(half(), c1(), half(), c0())
}

/// The unit circle glyph of `Orig(0)`.
pub open spec fn circle_glyph() -> SDraw {
    SDraw::Circle { cx: half(), cy: half(), radius: half() }
}

/// The branch lines attached to the stem for digit `k` in `1..=18`:
/// the fixed lookup table of the Cistercian-style numeral script.
pub open spec fn digit_branches(k: u64) -> Seq<SDraw> {
    if k == 1 {
        seq![sline(half(), c0(), three_quarters(), c0())]
    } else if k == 2 {
        seq![sline(half(), quarter(), three_quarters(), quarter())]
    } else if k == 3 {
        seq![sline(half(), c0(), three_quarters(), quarter())]
    } else if k == 4 {
        seq![sline(half(), quarter(), three_quarters(), c0())]
    } else if k == 5 {
        seq![
            sline(half(), c0(), three_quarters(), c0()),
            sline(three_quarters(), c0(), half(), quarter()),
        ]
    } else if k == 6 {
        seq![sline(three_quarters(), c0(), three_quarters(), quarter())]
    } else if k == 7 {
        seq![
            sline(half(), c0(), three_quarters(), c0()),
            sline(three_quarters(), c0(), three_quarters(), quarter()),
        ]
    } else if k == 8 {
        seq![
            sline(half(), quarter(), three_quarters(), quarter()),
            sline(three_quarters(), quarter(), three_quarters(), c0()),
        ]
    } else if k == 9 {
        seq![
            sline(half(), c0(), three_quarters(), c0()),
            sline(three_quarters(), c0(), three_quarters(), quarter()),
            sline(three_quarters(), quarter(), half(), quarter()),
        ]
    } else if k == 10 {
        seq![sline(half(), c0(), quarter(), c0())]
    } else if k == 11 {
        seq![sline(half(), quarter(), quarter(), quarter())]
    } else if k == 12 {
        seq![sline(half(), c0(), quarter(), quarter())]
    } else if k == 13 {
        seq![sline(half(), quarter(), quarter(), c0())]
    } else if k == 14 {
        seq![
            sline(half(), c0(), quarter(), c0()),
            sline(quarter(), c0(), half(), quarter()),
        ]
    } else if k == 15 {
        seq![sline(quarter(), c0(), quarter(), quarter())]
    } else if k == 16 {
        seq![
            sline(half(), c0(), quarter(), c0()),
            sline(quarter(), c0(), quarter(), quarter()),
        ]
    } else if k == 17 {
        seq![
            sline(half(), quarter(), quarter(), quarter()),
            sline(quarter(), quarter(), quarter(), c0()),
        ]
    } else {
        seq![
            sline(half(), c0(), quarter(), c0()),
            sline(quarter(), c0(), quarter(), quarter()),
            sline(quarter(), quarter(), half(), quarter()),
        ]
    }
}

/// The glyph of digit `k`: the bare stem for `k == 0`, else the stem
/// followed by the branch lines of the lookup table.
pub open spec fn spec_digit(k: u64) -> SDraw {
    if k == 0 {
        stem()
    } else {
        SDraw::Sequence(seq![stem()] + digit_branches(k))
    }
}

/// Whether a power glyph forces the horizontal separator: it does
/// whenever either operand is the bare-stem digit.
pub open spec fn pow_sep(a: Expr, b: Expr) -> bool {
    a == Expr::Const(0u64) || b == Expr::Const(0u64)
}

/// The shape tree of a valid expression.
pub open spec fn spec_build(e: Expr) -> SDraw
    decreases e,
{
    match e {
        Expr::Orig(n) => if n == 0 {
            circle_glyph()
        } else {
            SDraw::Sequence(seq![circle_glyph(), sline(half(), c0(), half(), half())])
        },
        Expr::Const(k) => spec_digit(k),
        Expr::Bin(op, ab) => match op {
            Op::Pow => SDraw::MirrorV(
                pow_sep(ab.0, ab.1),
                Box::new((spec_build(ab.0), spec_build(ab.1))),
            ),
            Op::Mul => SDraw::Chain(Box::new((spec_build(ab.0), spec_build(ab.1)))),
            Op::Add => SDraw::Quote(Box::new((spec_build(ab.0), spec_build(ab.1)))),
        },
    }
}

/// The shape of a valid expression is well-formed: every coordinate
/// of the glyph table and of the composition rules has a positive
/// denominator.
#[verifier::rlimit(50)]
pub proof fn lemma_spec_build_wf(e: Expr)
    requires
        valid_expr(e),
    ensures
        draw_wf(spec_build(e)),
    decreases e,
{
    match e {
        Expr::Orig(n) => {
            if n != 0 {
                let cs = seq![circle_glyph(), sline(half(), c0(), half(), half())];
                assert forall|i: int| 0 <= i < cs.len() implies draw_wf(#[trigger] cs[i]) by {
                    if i == 0 {
                        assert(draw_wf(cs[0]));
                    } else {
                        assert(draw_wf(cs[1]));
                    }
                }
                assert(draw_wf(SDraw::Sequence(cs)));
            }
        },
        Expr::Const(k) => {
            if k != 0 {
                let cs = seq![stem()] + digit_branches(k);
                assert forall|i: int| 0 <= i < cs.len() implies draw_wf(#[trigger] cs[i]) by {
                    assert(draw_wf(stem()));
                }
                assert(draw_wf(SDraw::Sequence(cs)));
            }
        },
        Expr::Bin(_op, ab) => {
            lemma_spec_build_wf(ab.0);
            lemma_spec_build_wf(ab.1);
        },
    }
}

fn line_e(x0: Rat, y0: Rat, x1: Rat, y1: Rat) -> (d: Draw)
    ensures
        d@ == sline(x0, y0, x1, y1),
{
    Draw::Line { from: (x0, y0), to: (x1, y1) }
}

fn stem_e() -> (d: Draw)
    ensures
        d@ == stem(),
{
    line_e(
        Rat { num: 1, den: 2 },
        Rat { num: 1, den: 1 },
        Rat { num: 1, den: 2 },
        Rat { num: 0, den: 1 },
    )
}

/// Builds the glyph of digit `k` from the lookup table.
fn digit_glyph(k: u64) -> (d: Draw)
    requires
        k <= 18,
    ensures
        d@ == spec_digit(k),
{
    let h = Rat { num: 1, den: 2 };
    let q = Rat { num: 1, den: 4 };
    let tq = Rat { num: 3, den: 4 };
    let z = Rat { num: 0, den: 1 };
    if k == 0 {
        let d = stem_e();
        assert(d@ =~~= spec_digit(k));
        d
    } else {
        let mut cs: Vec<Draw> = Vec::new();
        cs.push(stem_e());
        if k == 1 {
            cs.push(line_e(h, z, tq, z));
        } else if k == 2 {
            cs.push(line_e(h, q, tq, q));
        } else if k == 3 {
            cs.push(line_e(h, z, tq, q));
        } else if k == 4 {
            cs.push(line_e(h, q, tq, z));
        } else if k == 5 {
            cs.push(line_e(h, z, tq, z));
            cs.push(line_e(tq, z, h, q));
        } else if k == 6 {
            cs.push(line_e(tq, z, tq, q));
        } else if k == 7 {
            cs.push(line_e(h, z, tq, z));
            cs.push(line_e(tq, z, tq, q));
        } else if k == 8 {
            cs.push(line_e(h, q, tq, q));
            cs.push(line_e(tq, q, tq, z));
        } else if k == 9 {
            cs.push(line_e(h, z, tq, z));
            cs.push(line_e(tq, z, tq, q));
            cs.push(line_e(tq, q, h, q));
        } else if k == 10 {
            cs.push(line_e(h, z, q, z));
        } else if k == 11 {
            cs.push(line_e(h, q, q, q));
        } else if k == 12 {
            cs.push(line_e(h, z, q, q));
        } else if k == 13 {
            cs.push(line_e(h, q, q, z));
        } else if k == 14 {
            cs.push(line_e(h, z, q, z));
            cs.push(line_e(q, z, h, q));
        } else if k == 15 {
            cs.push(line_e(q, z, q, q));
        } else if k == 16 {
            cs.push(line_e(h, z, q, z));
            cs.push(line_e(q, z, q, q));
        } else if k == 17 {
            cs.push(line_e(h, q, q, q));
            cs.push(line_e(q, q, q, z));
        } else {
            cs.push(line_e(h, z, q, z));
            cs.push(line_e(q, z, q, q));
            cs.push(line_e(q, q, h, q));
        }
        proof {
            lemma_view_draw_seq(cs@);
            assert(view_draw_seq(cs@) =~= seq![stem()] + digit_branches(k));
        }
        let d = Draw::Sequence(cs);
        assert(d@ == spec_digit(k));
        d
    }
}

impl Draw {
    /// Converts from a numeral expression to a drawing shape.
    ///
    /// Succeeds exactly on the valid expressions, and on those returns
    /// exactly the shape tree of the glyph-composition rules; any node
    /// outside the grammar is an error, with no partial result.
    pub fn from_algexeno(alg: &Expr) -> (r: Result<Self, ()>)
        ensures
            r is Ok <==> valid_expr(*alg),
            r matches Ok(d) ==> d@ == spec_build(*alg) && draw_wf(d@),
        decreases *alg,
    {
        proof {
            if valid_expr(*alg) {
                lemma_spec_build_wf(*alg);
            }
        }
        match alg {
            Expr::Orig(n) => {
                if *n == 0 {
                    let d = Draw::Circle {
                        center: (Rat { num: 1, den: 2 }, Rat { num: 1, den: 2 }),
                        radius: Rat { num: 1, den: 2 },
                    };
                    assert(d@ =~~= spec_build(*alg));
                    Ok(d)
                } else if *n == 1 {
                    let mut cs: Vec<Draw> = Vec::new();
                    cs.push(
                        Draw::Circle {
                            center: (Rat { num: 1, den: 2 }, Rat { num: 1, den: 2 }),
                            radius: Rat { num: 1, den: 2 },
                        },
                    );
                    cs.push(
                        line_e(
                            Rat { num: 1, den: 2 },
                            Rat { num: 0, den: 1 },
                            Rat { num: 1, den: 2 },
                            Rat { num: 1, den: 2 },
                        ),
                    );
                    proof {
                        lemma_view_draw_seq(cs@);
                        assert(view_draw_seq(cs@) =~= seq![
                            circle_glyph(),
                            sline(half(), c0(), half(), half()),
                        ]);
                    }
                    let d = Draw::Sequence(cs);
                    assert(d@ == spec_build(*alg));
                    Ok(d)
                } else {
                    Err(())
                }
            },
            Expr::Const(k) => {
                if *k <= 18 {
                    Ok(digit_glyph(*k))
                } else {
                    Err(())
                }
            },
            Expr::Bin(op, ab) => {
                let a = Draw::from_algexeno(&ab.0)?;
                let b = Draw::from_algexeno(&ab.1)?;
                let d = match op {
                    Op::Pow => {
                        let sep = match (&ab.0, &ab.1) {
                            (Expr::Const(0u64), _) => true,
                            (_, Expr::Const(0u64)) => true,
                            _ => false,
                        };
                        Draw::MirrorV(sep, Box::new((a, b)))
                    },
                    Op::Mul => Draw::Chain(Box::new((a, b))),
                    Op::Add => Draw::Quote(Box::new((a, b))),
                };
                assert(d@ =~~= spec_build(*alg));
                Ok(d)
            },
        }
    }
}

} // verus!
