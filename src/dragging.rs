//! The drag state machine, and what a drag does to the lines.
use vstd::prelude::*;

use crate::card_line::{in_acceptance_region, nearest_slot, slot_x, CardId, CardLine};
use crate::dispatcher::{others_lose_card, without_card, CardTable};
use crate::geometry::{abs, COORD_MAX, LENGTH_MAX};

verus! {

/// Where the pointer's drag stands.
#[derive(Clone, Copy, Debug, PartialEq, Eq, Structural)]
pub enum DragPhase {
    Idle,
    /// The button went down on `card` at `(x, y)`.
    Pressed { card: CardId, x: i64, y: i64 },
    Dragging { card: CardId },
    /// The button came up; the card settles for one frame.
    Dropping { card: CardId },
}

/// The pointer as one frame sees it.
#[derive(Clone, Copy, Debug, PartialEq, Eq, Structural)]
pub struct PointerInput {
    pub x: i64,
    pub y: i64,
    pub button_down: bool,
    pub just_pressed: bool,
    pub just_released: bool,
}

/// The button is up, or came up in this frame.
pub open spec fn released(input: PointerInput) -> bool {
    input.just_released || !input.button_down
}

/// The pointer is more than `threshold` away from `(x, y)`.
pub open spec fn moved_beyond(input: PointerInput, x: int, y: int, threshold: int) -> bool {
    (input.x - x) * (input.x - x) + (input.y - y) * (input.y - y) > threshold * threshold
}

/// The phase that follows `phase` on `input`, `hovered` being the card under
/// the pointer.
pub open spec fn next_phase_spec(
    phase: DragPhase,
    input: PointerInput,
    hovered: Option<CardId>,
    threshold: int,
) -> DragPhase {
    match phase {
        DragPhase::Idle => if input.just_pressed && hovered is Some {
            DragPhase::Pressed { card: hovered->0, x: input.x, y: input.y }
        } else {
            DragPhase::Idle
        },
        DragPhase::Pressed { card, x, y } => if released(input) {
            DragPhase::Idle
        } else if moved_beyond(input, x as int, y as int, threshold) {
            DragPhase::Dragging { card }
        } else {
            phase
        },
        DragPhase::Dragging { card } => if released(input) {
            DragPhase::Dropping { card }
        } else {
            phase
        },
        DragPhase::Dropping { .. } => DragPhase::Idle,
    }
}

/// The card that carries the drag flag in `phase`.
pub open spec fn dragged_card(phase: DragPhase) -> Option<CardId> {
    match phase {
        DragPhase::Dragging { card } => Some(card),
        _ => None,
    }
}

/// At most one card carries the drag flag.
pub proof fn lemma_single_drag(phase: DragPhase, a: CardId, b: CardId)
    requires
        dragged_card(phase) == Some(a),
        dragged_card(phase) == Some(b),
    ensures
        a == b,
{
}

pub open spec fn input_ok(input: PointerInput) -> bool {
    abs(input.x as int) <= COORD_MAX && abs(input.y as int) <= COORD_MAX
}

impl DragPhase {
    /// Steps the drag state machine by one frame.
    pub fn next(self, input: PointerInput, hovered: Option<CardId>, threshold: i64) -> (r: DragPhase)
        requires
            input_ok(input),
            0 <= threshold <= COORD_MAX,
            match self {
                DragPhase::Pressed { x, y, .. } => abs(x as int) <= COORD_MAX && abs(y as int)
                    <= COORD_MAX,
                _ => true,
            },
        ensures
            r == next_phase_spec(self, input, hovered, threshold as int),
    {
        match self {
            DragPhase::Idle => {
                if input.just_pressed {
                    match hovered {
                        Some(c) => DragPhase::Pressed { card: c, x: input.x, y: input.y },
                        None => DragPhase::Idle,
                    }
                } else {
                    DragPhase::Idle
                }
            },
            DragPhase::Pressed { card, x, y } => {
                if input.just_released || !input.button_down {
                    DragPhase::Idle
                } else {
                    let dx: i128 = input.x as i128 - x as i128;
                    let dy: i128 = input.y as i128 - y as i128;
                    let t: i128 = threshold as i128;
                    proof {
                        assert(0 <= dx * dx <= 4_000_000_000_000_000_000) by (nonlinear_arith)
                            requires
                                -2_000_000_000 <= dx <= 2_000_000_000,
                        {}
                        assert(0 <= dy * dy <= 4_000_000_000_000_000_000) by (nonlinear_arith)
                            requires
                                -2_000_000_000 <= dy <= 2_000_000_000,
                        {}
                        assert(0 <= t * t <= 1_000_000_000_000_000_000) by (nonlinear_arith)
                            requires
                                0 <= t <= 1_000_000_000,
                        {}
                    }
                    if dx * dx + dy * dy > t * t {
                        DragPhase::Dragging { card }
                    } else {
                        self
                    }
                }
            },
            DragPhase::Dragging { card } => {
                if input.just_released || !input.button_down {
                    DragPhase::Dropping { card }
                } else {
                    self
                }
            },
            DragPhase::Dropping { .. } => DragPhase::Idle,
        }
    }

    /// The card that carries the drag flag.
    pub fn dragged(&self) -> (r: Option<CardId>)
        ensures
            r == dragged_card(*self),
    {
        match self {
            DragPhase::Dragging { card } => Some(*card),
            _ => None,
        }
    }
}

/// What a frame of dragging did to the lines.
#[derive(Clone, Copy, Debug, PartialEq, Eq, Structural)]
pub enum DragMove {
    /// Nothing changed.
    Stayed,
    /// Within line `line`, the card went from slot `from` to slot `to`.
    Reordered { line: usize, from: usize, to: usize },
    /// The card went into line `line`.
    Transferred { line: usize },
}

/// The local frame of line `i` of `t`: the pointer `(px, py)` seen from it.
pub open spec fn local_x(t: CardTable, i: int, px: int, py: int) -> int {
    let o = t.lines@[i].origin;
    crate::geometry::unrotate_x(o.cos as int, o.sin as int, px - o.x, py - o.y)
}

pub open spec fn local_y(t: CardTable, i: int, px: int, py: int) -> int {
    let o = t.lines@[i].origin;
    crate::geometry::unrotate_y(o.cos as int, o.sin as int, px - o.x, py - o.y)
}

/// Line `j` of `t` would take the dragged `card` with the pointer at
/// `(px, py)`: the card is not in it, it has room, and the pointer is over it.
pub open spec fn would_accept(
    t: CardTable,
    j: int,
    card: CardId,
    px: int,
    py: int,
    card_half_height: int,
) -> bool {
    &&& !t.lines@[j].members@.contains(card)
    &&& !t.lines@[j].is_full()
    &&& in_acceptance_region(
        t.lines@[j],
        local_x(t, j, px, py),
        local_y(t, j, px, py),
        card_half_height,
    )
}

/// Slot `s` is one of the slots, among `n` of line `l`, whose centre is
/// nearest to the local X coordinate `lx`.
pub open spec fn nearest_in(l: CardLine, n: int, s: int, lx: int) -> bool {
    forall|j: int|
        0 <= j < n ==> abs(slot_x(n, s, l.card_origin_gap as int) - lx) <= abs(
            slot_x(n, j, l.card_origin_gap as int) - lx,
        )
}

/// What one frame of dragging `card` with the pointer at `(px, py)` does to
/// table `a`, giving `b`, and how it is reported as `r`.
pub open spec fn drag_effect(
    a: CardTable,
    card: CardId,
    px: int,
    py: int,
    card_half_height: int,
    r: DragMove,
    b: CardTable,
) -> bool {
    &&& b.ids@ == a.ids@
    &&& b.lines@.len() == a.lines@.len()
    &&& match r {
            DragMove::Stayed => b == a && (forall|i: int, k: int|
                0 <= i < a.lines@.len() && 0 <= k < a.lines@[i].members@.len()
                    && #[trigger] a.lines@[i].members@[k] == card ==> nearest_in(
                    a.lines@[i],
                    a.lines@[i].members@.len() as int,
                    k,
                    local_x(a, i, px, py),
                )) && forall|j: int|
                0 <= j < a.lines@.len() ==> !would_accept(
                    a,
                    j,
                    card,
                    px,
                    py,
                    card_half_height,
                ),
            DragMove::Transferred { line } => {
                &&& line < a.lines@.len()
                &&& would_accept(
                    a,
                    line as int,
                    card,
                    px,
                    py,
                    card_half_height,
                )
                &&& forall|j: int|
                    0 <= j < line ==> !would_accept(
                        a,
                        j,
                        card,
                        px,
                        py,
                        card_half_height,
                    )
                &&& exists|s: int|
                    0 <= s <= a.lines@[line as int].members@.len() && nearest_in(
                        a.lines@[line as int],
                        a.lines@[line as int].members@.len() as int + 1,
                        s,
                        local_x(a, line as int, px, py),
                    ) && b.lines@[line as int].members@ == a.lines@[line as int].members@.insert(
                        s,
                        card,
                    )
                &&& b.lines@[line as int].same_config(&a.lines@[line as int])
                &&& others_lose_card(a.lines@, b.lines@, line as int, card)
            },
            DragMove::Reordered { line, from, to } => {
                let l = a.lines@[line as int];
                let n = l.members@.len() as int;
                &&& line < a.lines@.len()
                &&& from < n && to < n && from != to
                &&& l.members@[from as int] == card
                &&& nearest_in(l, n, to as int, local_x(a, line as int, px, py))
                &&& b.lines@[line as int].members@ == l.members@.remove(
                    from as int,
                ).insert(to as int, card)
                &&& forall|j: int|
                    0 <= j < a.lines@.len() && j != line ==> b.lines@[j]
                        == a.lines@[j]
            },
        }
}

/// One frame of a drag of `card` with the pointer at `(px, py)`. The first
/// line (in table order) that would accept the card takes it, at the slot
/// nearest to the pointer. Otherwise, if the card is in a line, it moves to
/// the slot of that line nearest to the pointer.
pub fn drag_update(
    table: &mut CardTable,
    card: CardId,
    px: i64,
    py: i64,
    card_half_height: i64,
) -> (r: DragMove)
    requires
        old(table).wf(),
        abs(px as int) <= COORD_MAX,
        abs(py as int) <= COORD_MAX,
        0 <= card_half_height <= LENGTH_MAX,
    ensures
        final(table).wf(),
        drag_effect(
            *old(table),
            card,
            px as int,
            py as int,
            card_half_height as int,
            r,
            *final(table),
        ),
{
    let ghost t0 = *table;
    let mut j: usize = 0;
    while j < table.lines.len()
        invariant
            *table == t0,
            t0 == *old(table),
            table.wf(),
            j <= table.lines@.len(),
            abs(px as int) <= COORD_MAX,
            abs(py as int) <= COORD_MAX,
            0 <= card_half_height <= LENGTH_MAX,
            forall|q: int|
                0 <= q < j ==> !would_accept(
                    *table,
                    q,
                    card,
                    px as int,
                    py as int,
                    card_half_height as int,
                ),
        decreases table.lines@.len() - j,
    {
        let line = &table.lines[j];
        assert(line.wf());
        if !line.contains(card) && line.len() < line.max_cards {
            let (lx, ly) = line.to_local(px, py);
            if line.accepts_at(lx, ly, card_half_height) {
                let slot = nearest_slot(line.len() + 1, line.card_origin_gap, lx);
                let ghost before = *table;
                let res = table.transfer(card, j, slot);
                assert(res is Ok);
                proof {
                    assert(table.lines@[j as int].members@[slot as int] == card);
                    assert(lx == local_x(before, j as int, px as int, py as int));
                    assert(ly == local_y(before, j as int, px as int, py as int));
                    assert(would_accept(
                        before,
                        j as int,
                        card,
                        px as int,
                        py as int,
                        card_half_height as int,
                    ));
                    assert(slot <= before.lines@[j as int].members@.len());
                    assert(table.lines@[j as int].members@ == before.lines@[
                        j as int
                    ].members@.insert(slot as int, card));
                    assert(nearest_in(
                        before.lines@[j as int],
                        before.lines@[j as int].members@.len() as int + 1,
                        slot as int,
                        local_x(before, j as int, px as int, py as int),
                    ));
                }
                proof {
                    let sl = slot as int;
                    let la = before.lines@[j as int];
                    assert(0 <= sl <= la.members@.len() && nearest_in(
                        la,
                        la.members@.len() as int + 1,
                        sl,
                        local_x(before, j as int, px as int, py as int),
                    ) && table.lines@[j as int].members@ == la.members@.insert(sl, card));
                    assert(drag_effect(
                        before,
                        card,
                        px as int,
                        py as int,
                        card_half_height as int,
                        DragMove::Transferred { line: j },
                        *table,
                    ));
                }
                return DragMove::Transferred { line: j };
            }
        }
        j = j + 1;
    }
    match table.locate(card) {
        None => {
            proof {
                assert forall|i: int, k: int|
                    0 <= i < table.lines@.len() && 0 <= k < table.lines@[i].members@.len()
                        && #[trigger] table.lines@[i].members@[k] == card implies false by {
                    assert(table.lines@[i].members@.contains(card));
                }
            }
            DragMove::Stayed
        },
        Some((i, k)) => {
            let line = &table.lines[i];
            assert(line.wf());
            let (lx, _ly) = line.to_local(px, py);
            let target = nearest_slot(line.len(), line.card_origin_gap, lx);
            if target == k {
                proof {
                    assert forall|i2: int, k2: int|
                        0 <= i2 < table.lines@.len() && 0 <= k2 < table.lines@[i2].members@.len()
                            && #[trigger] table.lines@[i2].members@[k2] == card implies i2 == i
                        && k2 == k by {
                        assert(table.lines@[i2].members@.contains(card));
                        assert(table.lines@[i as int].members@.contains(card));
                        assert(table.lines@[i as int].wf());
                    }
                }
                DragMove::Stayed
            } else {
                table.reorder(i, k, target);
                DragMove::Reordered { line: i, from: k, to: target }
            }
        },
    }
}

} // verus!
