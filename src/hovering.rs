//! Which card the pointer is over.
use vstd::prelude::*;

use crate::card_line::CardId;
use crate::geometry::{abs, Pose, COORD_MAX, LENGTH_MAX, ROT_ONE};

verus! {

/// Fixed-point unit of a card's uniform scale.
pub const SCALE_ONE: i64 = 1000;

/// Largest uniform scale a card may have, in units of `SCALE_ONE`.
pub const SCALE_MAX: i64 = 1_000_000;

/// What the hover resolver reads of a card: its current pose, the extents of
/// its sprite, its uniform scale, and where it stands for tie-breaking.
#[derive(Clone, Copy, Debug, PartialEq, Eq, Structural)]
pub struct HoverCandidate {
    pub card: CardId,
    pub pose: Pose,
    pub width: i64,
    pub height: i64,
    pub scale: i64,
    /// Slot of the card in its line; zero for a card in no line.
    pub slot: u64,
    /// Rank of the card's line in the order the lines were added.
    pub line_rank: u64,
}

impl HoverCandidate {
    pub open spec fn wf(&self) -> bool {
        &&& self.pose.bounded()
        &&& 0 <= self.width <= LENGTH_MAX
        &&& 0 <= self.height <= LENGTH_MAX
        &&& 0 <= self.scale <= SCALE_MAX
    }
}

/// Whether the pointer at `(px, py)` lies on the card: turned back into the
/// card's frame, it falls within the sprite's extents times its scale. Both
/// sides are kept in fixed point, so no rounding takes place.
pub open spec fn under_pointer(c: HoverCandidate, px: int, py: int) -> bool {
    let dx = px - c.pose.x;
    let dy = py - c.pose.y;
    let lx = c.pose.cos * dx + c.pose.sin * dy;
    let ly = c.pose.cos * dy - c.pose.sin * dx;
    &&& 2 * abs(lx) * SCALE_ONE <= c.width * c.scale * ROT_ONE
    &&& 2 * abs(ly) * SCALE_ONE <= c.height * c.scale * ROT_ONE
}

/// `a` is drawn above `b`: a higher slot, or the same slot in a later line.
pub open spec fn outranks(a: HoverCandidate, b: HoverCandidate) -> bool {
    a.slot > b.slot || (a.slot == b.slot && a.line_rank > b.line_rank)
}

pub open spec fn pointer_ok(px: int, py: int) -> bool {
    abs(px) <= COORD_MAX && abs(py) <= COORD_MAX
}

/// Whether the pointer lies on the card.
pub fn is_under_pointer(c: &HoverCandidate, px: i64, py: i64) -> (r: bool)
    requires
        c.wf(),
        pointer_ok(px as int, py as int),
    ensures
        r == under_pointer(*c, px as int, py as int),
{
    let dx: i64 = px - c.pose.x;
    let dy: i64 = py - c.pose.y;
    proof {
        let m: int = 9_000_000_000;
        assert(-m <= dx <= m && -m <= dy <= m);
        assert(-1024 * m <= c.pose.cos * dx <= 1024 * m) by (nonlinear_arith)
            requires
                -1024 <= c.pose.cos <= 1024,
                -m <= dx <= m,
                m == 9_000_000_000,
        {}
        assert(-1024 * m <= c.pose.sin * dy <= 1024 * m) by (nonlinear_arith)
            requires
                -1024 <= c.pose.sin <= 1024,
                -m <= dy <= m,
                m == 9_000_000_000,
        {}
        assert(-1024 * m <= c.pose.cos * dy <= 1024 * m) by (nonlinear_arith)
            requires
                -1024 <= c.pose.cos <= 1024,
                -m <= dy <= m,
                m == 9_000_000_000,
        {}
        assert(-1024 * m <= c.pose.sin * dx <= 1024 * m) by (nonlinear_arith)
            requires
                -1024 <= c.pose.sin <= 1024,
                -m <= dx <= m,
                m == 9_000_000_000,
        {}
        assert(0 <= c.width * c.scale <= 1_000_000_000_000) by (nonlinear_arith)
            requires
                0 <= c.width <= 1_000_000,
                0 <= c.scale <= 1_000_000,
        {}
        assert(0 <= c.height * c.scale <= 1_000_000_000_000) by (nonlinear_arith)
            requires
                0 <= c.height <= 1_000_000,
                0 <= c.scale <= 1_000_000,
        {}
    }
    let lx: i64 = c.pose.cos * dx + c.pose.sin * dy;
    let ly: i64 = c.pose.cos * dy - c.pose.sin * dx;
    let ax: i64 = if lx >= 0 {
        lx
    } else {
        -lx
    };
    let ay: i64 = if ly >= 0 {
        ly
    } else {
        -ly
    };
    2 * ax * SCALE_ONE <= c.width * c.scale * ROT_ONE && 2 * ay * SCALE_ONE <= c.height * c.scale
        * ROT_ONE
}

/// The card that the pointer selects, when no card is being dragged.
pub open spec fn is_hover_choice(cards: Seq<HoverCandidate>, px: int, py: int, k: int) -> bool {
    &&& 0 <= k < cards.len()
    &&& under_pointer(cards[k], px, py)
    &&& forall|j: int|
        0 <= j < cards.len() && under_pointer(cards[j], px, py) ==> !outranks(
            #[trigger] cards[j],
            cards[k],
        )
}

/// `r` is the hovered card that `cards` give with the pointer at
/// `(px, py)` and `dragged` being dragged; see `resolve_hover`.
pub open spec fn hover_outcome(
    cards: Seq<HoverCandidate>,
    px: int,
    py: int,
    dragged: Option<CardId>,
    r: Option<CardId>,
) -> bool {
    &&& dragged is Some ==> (r is Some <==> exists|k: int|
        0 <= k < cards.len() && cards[k].card == dragged->0 && under_pointer(
            #[trigger] cards[k],
            px,
            py,
        ))
    &&& match dragged {
        Some(d) => r == dragged || r is None,
        None => match r {
            Some(c) => exists|k: int| is_hover_choice(cards, px, py, k) && #[trigger] cards[k].card == c,
            None => forall|k: int| 0 <= k < cards.len() ==> !under_pointer(#[trigger] cards[k], px, py),
        },
    }
}

/// Resolves the hovered card. While `dragged` holds a card, that card stays
/// hovered as long as the pointer is on it, and no other card is hovered.
/// Otherwise the pointer selects, among the cards it lies on, the one with
/// the highest slot, then the one in the latest line.
pub fn resolve_hover(
    cards: &Vec<HoverCandidate>,
    px: i64,
    py: i64,
    dragged: Option<CardId>,
) -> (r: Option<CardId>)
    requires
        forall|k: int| 0 <= k < cards@.len() ==> (#[trigger] cards@[k]).wf(),
        pointer_ok(px as int, py as int),
    ensures
        hover_outcome(cards@, px as int, py as int, dragged, r),
{
    match dragged {
        Some(d) => {
            let mut i: usize = 0;
            while i < cards.len()
                invariant
                    dragged == Some(d),
                    forall|k: int| 0 <= k < cards@.len() ==> (#[trigger] cards@[k]).wf(),
                    pointer_ok(px as int, py as int),
                    i <= cards@.len(),
                    forall|k: int|
                        0 <= k < i ==> !(cards@[k].card == d && under_pointer(
                            #[trigger] cards@[k],
                            px as int,
                            py as int,
                        )),
                decreases cards@.len() - i,
            {
                if cards[i].card == d && is_under_pointer(&cards[i], px, py) {
                    assert(cards@[i as int].card == d && under_pointer(
                        cards@[i as int],
                        px as int,
                        py as int,
                    ));
                    return Some(d);
                }
                i = i + 1;
            }
            None
        },
        None => {
            let mut best: Option<usize> = None;
            let mut i: usize = 0;
            while i < cards.len()
                invariant
                    dragged is None,
                    forall|k: int| 0 <= k < cards@.len() ==> (#[trigger] cards@[k]).wf(),
                    pointer_ok(px as int, py as int),
                    i <= cards@.len(),
                    match best {
                        Some(b) => b < i && under_pointer(cards@[b as int], px as int, py as int)
                            && forall|j: int|
                            0 <= j < i && under_pointer(cards@[j], px as int, py as int)
                                ==> !outranks(#[trigger] cards@[j], cards@[b as int]),
                        None => forall|j: int|
                            0 <= j < i ==> !under_pointer(
                                #[trigger] cards@[j],
                                px as int,
                                py as int,
                            ),
                    },
                decreases cards@.len() - i,
            {
                if is_under_pointer(&cards[i], px, py) {
                    match best {
                        None => {
                            best = Some(i);
                        },
                        Some(b) => {
                            let c = &cards[i];
                            let o = &cards[b];
                            if c.slot > o.slot || (c.slot == o.slot && c.line_rank > o.line_rank) {
                                best = Some(i);
                            }
                        },
                    }
                }
                i = i + 1;
            }
            match best {
                Some(b) => {
                    assert(is_hover_choice(cards@, px as int, py as int, b as int));
                    Some(cards[b].card)
                },
                None => None,
            }
        },
    }
}

/// The one hover slot of the scene.
#[derive(Clone, Copy, Debug, PartialEq, Eq, Structural)]
pub struct HoverState {
    pub hovered: Option<CardId>,
}

/// Whether `card` carries the hover flag.
pub open spec fn has_hover(s: HoverState, card: CardId) -> bool {
    s.hovered == Some(card)
}

/// At most one card carries the hover flag.
pub proof fn lemma_single_hover(s: HoverState, a: CardId, b: CardId)
    requires
        has_hover(s, a),
        has_hover(s, b),
    ensures
        a == b,
{
}

impl HoverState {
    pub fn new() -> (r: HoverState)
        ensures
            r.hovered is None,
    {
        HoverState { hovered: None }
    }

    /// Moves the hover flag to `card`. Returns the card that lost it, if
    /// the flag moved away from one.
    pub fn set(&mut self, card: Option<CardId>) -> (r: Option<CardId>)
        ensures
            final(self).hovered == card,
            r == (if old(self).hovered != card {
                old(self).hovered
            } else {
                None
            }),
    {
        let prior = self.hovered;
        self.hovered = card;
        if prior != card {
            prior
        } else {
            None
        }
    }
}

} // verus!
