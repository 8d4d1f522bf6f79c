//! The per-frame entry point: requests, dragging, hovering, layout and
//! motion, in that order.
use vstd::prelude::*;

use crate::card_line::{slot_pose, CardId, CardLine, MAX_CARDS_LIMIT};
use crate::dispatcher::{
    adds_to_line, applied, applied_to_line, lemma_adds_keep_order, others_lose_card, without_card, CardLineRequest, CardLineRequestType, CardTable,
    RequestError,
};
use crate::dragging::{
    drag_effect, drag_update, dragged_card, next_phase_spec, DragMove, DragPhase, PointerInput,
};
use crate::geometry::{abs, Pose, COORD_MAX, LENGTH_MAX};
use crate::hovering::{hover_outcome, resolve_hover, HoverCandidate, HoverState, SCALE_MAX};
use crate::mover::{mover_step, step_pose, SMOOTH_ONE};

verus! {

/// What the core keeps of a card: its current pose, the pose it moves
/// toward, and the size it is drawn at.
#[derive(Clone, Copy, Debug, PartialEq, Eq, Structural)]
pub struct CardState {
    pub card: CardId,
    pub pose: Pose,
    pub target: Option<Pose>,
    pub width: i64,
    pub height: i64,
    pub scale: i64,
}

impl CardState {
    pub open spec fn wf(&self) -> bool {
        &&& self.pose.bounded()
        &&& match self.target {
            Some(t) => t.bounded(),
            None => true,
        }
        &&& 0 <= self.width <= LENGTH_MAX
        &&& 0 <= self.height <= LENGTH_MAX
        &&& 0 <= self.scale <= SCALE_MAX
    }
}

/// Tunables of the core.
#[derive(Clone, Copy, Debug, PartialEq, Eq, Structural)]
pub struct CoreConfig {
    /// Distance the pointer must travel, button held, before a press
    /// becomes a drag.
    pub drag_threshold: i64,
    /// Depth added to a dragged card so that it is drawn above the others.
    pub drag_lift: i64,
    /// Distance below which a moving card snaps onto its target.
    pub settle: i64,
    pub print_debug_logs: bool,
}

impl CoreConfig {
    pub open spec fn wf(&self) -> bool {
        &&& 0 <= self.drag_threshold <= COORD_MAX
        &&& 0 <= self.drag_lift <= LENGTH_MAX
    }
}

/// What one frame did.
#[derive(Clone, Debug)]
pub struct TickReport {
    /// The outcome of each request, in the order given.
    pub outcomes: Vec<Result<(), RequestError>>,
    /// What dragging did to the lines.
    pub drag_move: DragMove,
}

/// The state of the card subsystem between frames.
pub struct CardsCore {
    pub table: CardTable,
    pub cards: Vec<CardState>,
    pub hover: HoverState,
    pub drag: DragPhase,
    pub config: CoreConfig,
}

/// Whether `request` names a card that `cards` does not hold.
pub open spec fn names_unknown_card(cards: Seq<CardState>, request: CardLineRequest) -> bool {
    match request.request_type {
        CardLineRequestType::AddToCardLine { card_entity } => forall|k: int|
            0 <= k < cards.len() ==> (#[trigger] cards[k]).card != card_entity,
        CardLineRequestType::RemoveFromCardLine { card_entity } => forall|k: int|
            0 <= k < cards.len() ==> (#[trigger] cards[k]).card != card_entity,
        _ => false,
    }
}

/// `h` is what the hover resolver reads of the card `c`: its pose and size,
/// and, when it stands in line `i` at slot `s`, that slot and `i` as the
/// line's rank; zero for both when it stands in no line.
pub open spec fn candidate_of(t: CardTable, c: CardState, h: HoverCandidate) -> bool {
    &&& h.wf()
    &&& h.card == c.card && h.pose == c.pose
    &&& h.width == c.width && h.height == c.height && h.scale == c.scale
    &&& forall|i: int, s: int|
        0 <= i < t.lines@.len() && 0 <= s < t.lines@[i].members@.len() && #[trigger] t.lines@[i].members@[s]
            == c.card ==> h.slot == s && h.line_rank == i
    &&& (forall|i: int, s: int|
        0 <= i < t.lines@.len() && 0 <= s < t.lines@[i].members@.len() ==> #[trigger] t.lines@[i].members@[s]
            != c.card) ==> h.slot == 0 && h.line_rank == 0
}

/// Whether `request` adds or removes the card `dragged` holds.
pub open spec fn names_dragged(request: CardLineRequest, dragged: Option<CardId>) -> bool {
    match request.request_type {
        CardLineRequestType::AddToCardLine { card_entity } => dragged == Some(card_entity),
        CardLineRequestType::RemoveFromCardLine { card_entity } => dragged == Some(card_entity),
        _ => false,
    }
}

/// What one request of a frame does to table `a`, giving `b`, when the core
/// tracks `cards` and `dragged` is being dragged.
pub open spec fn request_step(
    cards: Seq<CardState>,
    dragged: Option<CardId>,
    request: CardLineRequest,
    a: CardTable,
    r: Result<(), RequestError>,
    b: CardTable,
) -> bool {
    if names_unknown_card(cards, request) {
        r == Err::<(), RequestError>(RequestError::UnknownEntity) && b == a
    } else if names_dragged(request, dragged) {
        r == Err::<(), RequestError>(RequestError::CardDragged) && b == a
    } else {
        applied(a, request, r, b)
    }
}

/// A batch of requests applied in order to `t0`, giving `t1`, with outcomes
/// `outcomes`.
pub open spec fn batch_applied(
    t0: CardTable,
    cards: Seq<CardState>,
    dragged: Option<CardId>,
    requests: Seq<CardLineRequest>,
    outcomes: Seq<Result<(), RequestError>>,
    t1: CardTable,
) -> bool {
    &&& outcomes.len() == requests.len()
    &&& exists|states: Seq<CardTable>|
        states.len() == requests.len() + 1 && states[0] == t0 && states.last() == t1 && forall|
            k: int,
        |
            0 <= k < requests.len() ==> #[trigger] request_step(
                cards,
                dragged,
                requests[k],
                states[k],
                outcomes[k],
                states[k + 1],
            )
}

/// A request of a frame that is refused changes no line: whatever the
/// error, the lines after it are the lines before it.
pub proof fn lemma_refused_request_changes_nothing(
    cards: Seq<CardState>,
    dragged: Option<CardId>,
    request: CardLineRequest,
    a: CardTable,
    r: Result<(), RequestError>,
    b: CardTable,
)
    requires
        request_step(cards, dragged, request, a, r, b),
        r is Err,
    ensures
        b.ids@ == a.ids@,
        b.lines@ == a.lines@,
{
    if !names_unknown_card(cards, request) && !names_dragged(request, dragged) {
        if a.ids@.contains(request.line) {
            let i = choose|i: int| 0 <= i < a.ids@.len() && a.ids@[i] == request.line;
            assert(applied_to_line(a.lines@, i, request.request_type, r, b.lines@));
        }
    }
}

/// An add into a full line, of a tracked card that is not being dragged and
/// not already in it, is refused as `LineFull` and leaves every line as it
/// was.
pub proof fn lemma_add_to_full_line_refused(
    cards: Seq<CardState>,
    dragged: Option<CardId>,
    request: CardLineRequest,
    a: CardTable,
    r: Result<(), RequestError>,
    b: CardTable,
    i: int,
    card: CardId,
)
    requires
        request_step(cards, dragged, request, a, r, b),
        request.request_type == (CardLineRequestType::AddToCardLine { card_entity: card }),
        exists|k: int| 0 <= k < cards.len() && #[trigger] cards[k].card == card,
        dragged != Some(card),
        0 <= i < a.ids@.len(),
        a.ids@.len() == a.lines@.len(),
        a.ids@[i] == request.line,
        a.lines@[i].is_full(),
        !a.lines@[i].members@.contains(card),
    ensures
        r == Err::<(), RequestError>(RequestError::LineFull),
        b.lines@ == a.lines@,
{
    assert(a.ids@.contains(request.line));
    assert(applied_to_line(a.lines@, i, request.request_type, r, b.lines@));
}

/// Whether `cards` holds the card `c`.
pub open spec fn tracks(cards: Seq<CardState>, c: CardId) -> bool {
    exists|k: int| 0 <= k < cards.len() && #[trigger] cards[k].card == c
}

/// The adds of one frame's batch to line `i`, of tracked cards that are not
/// being dragged, once accepted, append those cards in submission order.
pub proof fn lemma_frame_adds_keep_order(
    t0: CardTable,
    cards: Seq<CardState>,
    dragged: Option<CardId>,
    requests: Seq<CardLineRequest>,
    outcomes: Seq<Result<(), RequestError>>,
    t1: CardTable,
    i: int,
    added: Seq<CardId>,
)
    requires
        t0.wf(),
        batch_applied(t0, cards, dragged, requests, outcomes, t1),
        0 <= i < t0.lines@.len(),
        adds_to_line(t0, i, requests, added),
        added.no_duplicates(),
        forall|q: int| 0 <= q < added.len() ==> !t0.lines@[i].members@.contains(added[q]),
        forall|q: int| 0 <= q < added.len() ==> tracks(cards, #[trigger] added[q]),
        forall|q: int| 0 <= q < added.len() ==> dragged != Some(added[q]),
        forall|q: int| 0 <= q < outcomes.len() ==> #[trigger] outcomes[q] is Ok,
    ensures
        t1.lines@[i].members@ == t0.lines@[i].members@ + added,
{
    let states = choose|states: Seq<CardTable>|
        states.len() == requests.len() + 1 && states[0] == t0 && states.last() == t1 && forall|
            k: int,
        |
            0 <= k < requests.len() ==> #[trigger] request_step(
                cards,
                dragged,
                requests[k],
                states[k],
                outcomes[k],
                states[k + 1],
            );
    assert forall|q: int| 0 <= q < requests.len() implies #[trigger] applied(
        states[q],
        requests[q],
        outcomes[q],
        states[q + 1],
    ) by {
        assert(request_step(cards, dragged, requests[q], states[q], outcomes[q], states[q + 1]));
        assert(requests[q] == (CardLineRequest {
            line: t0.ids@[i],
            request_type: CardLineRequestType::AddToCardLine { card_entity: added[q] },
        }));
        assert(tracks(cards, added[q]));
        let k = choose|k: int| 0 <= k < cards.len() && #[trigger] cards[k].card == added[q];
        assert(cards[k].card == added[q]);
    }
    lemma_adds_keep_order(t0, requests, outcomes, states, i, added);
}

/// The target of a card dragged out of line `i`: the pointer's position,
/// turned as the line, lifted by `lift`.
pub open spec fn drag_target(t: CardTable, i: int, lift: i64, px: i64, py: i64) -> Pose {
    let o = t.lines@[i].origin;
    Pose { x: px, y: py, z: (o.z + lift) as i64, cos: o.cos, sin: o.sin }
}

/// The target of slot `k` of line `i` for the card that stands there.
pub open spec fn slot_target(t: CardTable, i: int, k: int, hovered: Option<CardId>) -> Pose {
    let l = t.lines@[i];
    slot_pose(l, l.members@.len() as int, k, hovered == Some(l.members@[k]))
}

impl CardsCore {
    pub open spec fn wf(&self) -> bool {
        &&& self.table.wf()
        &&& self.config.wf()
        &&& forall|k: int| 0 <= k < self.cards@.len() ==> (#[trigger] self.cards@[k]).wf()
        &&& match self.drag {
            DragPhase::Pressed { x, y, .. } => abs(x as int) <= COORD_MAX && abs(y as int)
                <= COORD_MAX,
            _ => true,
        }
    }

    pub fn new(config: CoreConfig) -> (r: CardsCore)
        requires
            config.wf(),
        ensures
            r.wf(),
            r.config == config,
            r.table.lines@.len() == 0,
            r.cards@.len() == 0,
            r.hover.hovered is None,
            r.drag == DragPhase::Idle,
    {
        CardsCore {
            table: CardTable::new(),
            cards: Vec::new(),
            hover: HoverState::new(),
            drag: DragPhase::Idle,
            config,
        }
    }

    /// Position of `card` in the card store.
    pub fn find_card(&self, card: CardId) -> (r: Option<usize>)
        ensures
            match r {
                Some(k) => k < self.cards@.len() && self.cards@[k as int].card == card,
                None => forall|k: int| 0 <= k < self.cards@.len() ==> self.cards@[k].card != card,
            },
    {
        let mut k: usize = 0;
        while k < self.cards.len()
            invariant
                k <= self.cards@.len(),
                forall|q: int| 0 <= q < k ==> self.cards@[q].card != card,
            decreases self.cards@.len() - k,
        {
            if self.cards[k].card == card {
                return Some(k);
            }
            k = k + 1;
        }
        None
    }

    /// Starts tracking a card that the host created, at `pose`.
    pub fn add_card(&mut self, state: CardState) -> (r: bool)
        requires
            old(self).wf(),
            state.wf(),
        ensures
            final(self).wf(),
            r == forall|k: int| 0 <= k < old(self).cards@.len() ==> old(self).cards@[k].card != state.card,
            r ==> final(self).cards@ == old(self).cards@.push(state),
            !r ==> final(self).cards@ == old(self).cards@,
            final(self).table == old(self).table,
    {
        match self.find_card(state.card) {
            Some(_) => false,
            None => {
                self.cards.push(state);
                assert forall|k: int| 0 <= k < self.cards@.len() implies (
                #[trigger] self.cards@[k]).wf() by {
                    if k < self.cards@.len() - 1 {
                        assert(self.cards@[k] == old(self).cards@[k]);
                    }
                }
                true
            },
        }
    }

    /// Forgets a card that the host destroyed, and takes it out of its line.
    pub fn destroy_card(&mut self, card: CardId)
        requires
            old(self).wf(),
        ensures
            final(self).wf(),
            !final(self).table.placed(card),
            final(self).table.ids@ == old(self).table.ids@,
            final(self).table.lines@.len() == old(self).table.lines@.len(),
            others_lose_card(old(self).table.lines@, final(self).table.lines@, -1, card),
            (forall|k: int| 0 <= k < old(self).cards@.len() ==> old(self).cards@[k].card != card)
                ==> final(self).cards@ == old(self).cards@,
            (exists|k: int| 0 <= k < old(self).cards@.len() && old(self).cards@[k].card == card)
                ==> exists|k: int|
                0 <= k < old(self).cards@.len() && old(self).cards@[k].card == card
                    && final(self).cards@ == old(self).cards@.remove(k),
            final(self).hover.hovered == (if old(self).hover.hovered == Some(card) {
                None
            } else {
                old(self).hover.hovered
            }),
            final(self).drag == old(self).drag,
            final(self).config == old(self).config,
    {
        let ghost t0 = self.table;
        let d = self.table.detach(card);
        proof {
            let a = t0.lines@;
            let b = self.table.lines@;
            assert forall|j: int| 0 <= j < a.len() && j != -1 implies if a[j].members@.contains(card) {
                without_card(a[j], b[j], card)
            } else {
                b[j] == a[j]
            } by {
                match d {
                    Some(i) => {
                        if j != i {
                            assert(b[j] == a[j]);
                            if a[j].members@.contains(card) {
                                assert(a[i as int].members@.contains(card));
                                assert(false);
                            }
                        }
                    },
                    None => {
                        if a[j].members@.contains(card) {
                            assert(t0.placed(card));
                        }
                    },
                }
            }
        }
        match self.find_card(card) {
            Some(k) => {
                let ghost before = self.cards@;
                self.cards.remove(k);
                assert forall|q: int| 0 <= q < self.cards@.len() implies (
                #[trigger] self.cards@[q]).wf() by {
                    if q < k {
                        assert(self.cards@[q] == before[q]);
                    } else {
                        assert(self.cards@[q] == before[q + 1]);
                    }
                }
            },
            None => {},
        }
        if self.hover.hovered == Some(card) {
            self.hover.hovered = None;
        }
    }

    /// Forgets the line `id`, which the host destroyed. Its members belong to
    /// no line any more, and stay where they are: their target becomes their
    /// current pose.
    pub fn remove_line(&mut self, id: u64) -> (r: bool)
        requires
            old(self).wf(),
        ensures
            final(self).wf(),
            r == old(self).table.ids@.contains(id),
            !final(self).table.ids@.contains(id),
            r ==> exists|i: int|
                0 <= i < old(self).table.ids@.len() && old(self).table.ids@[i] == id
                    && final(self).table.ids@ == old(self).table.ids@.remove(i)
                    && final(self).table.lines@ == old(self).table.lines@.remove(i),
            !r ==> final(self).table == old(self).table && final(self).cards@ == old(self).cards@,
            final(self).cards@.len() == old(self).cards@.len(),
            forall|k: int|
                0 <= k < old(self).cards@.len() ==> {
                    let c = old(self).cards@[k];
                    let n = #[trigger] final(self).cards@[k];
                    &&& n.card == c.card && n.pose == c.pose
                    &&& n.width == c.width && n.height == c.height && n.scale == c.scale
                    &&& forall|i: int|
                        0 <= i < old(self).table.ids@.len() && old(self).table.ids@[i] == id
                            ==> n.target == if old(self).table.lines@[i].members@.contains(
                            c.card,
                        ) {
                            Some(c.pose)
                        } else {
                            c.target
                        }
                },
            final(self).hover == old(self).hover,
            final(self).drag == old(self).drag,
            final(self).config == old(self).config,
    {
        let i = match self.table.find_line(id) {
            None => {
                return false;
            },
            Some(i) => i,
        };
        proof {
            assert forall|j: int|
                0 <= j < self.table.ids@.len() && self.table.ids@[j] == id implies j == i by {}
        }
        let ghost before = self.cards@;
        let mut k: usize = 0;
        while k < self.cards.len()
            invariant
                old(self).wf(),
                self.wf(),
                self.table == old(self).table,
                self.hover == old(self).hover,
                self.drag == old(self).drag,
                self.config == old(self).config,
                before == old(self).cards@,
                i < self.table.lines@.len(),
                self.table.ids@[i as int] == id,
                k <= self.cards@.len(),
                self.cards@.len() == before.len(),
                forall|q: int| k <= q < before.len() ==> self.cards@[q] == before[q],
                forall|q: int|
                    0 <= q < k ==> {
                        let c = before[q];
                        let n = #[trigger] self.cards@[q];
                        &&& n.card == c.card && n.pose == c.pose
                        &&& n.width == c.width && n.height == c.height && n.scale == c.scale
                        &&& n.target == if self.table.lines@[i as int].members@.contains(c.card) {
                            Some(c.pose)
                        } else {
                            c.target
                        }
                    },
            decreases before.len() - k,
        {
            let mut st = self.cards[k];
            assert(st.wf());
            if self.table.lines[i].contains(st.card) {
                st.target = Some(st.pose);
            }
            self.cards.set(k, st);
            k = k + 1;
        }
        let removed = self.table.remove_line(id);
        removed
    }

    /// Applies `requests` in order. One that names a card the core does not
    /// track is dropped as `UnknownEntity`; one that would add or remove the
    /// card being dragged is dropped as `CardDragged`, since a dragged card
    /// keeps its line until it is dropped; the others go to their lines.
    pub fn apply_requests(&mut self, requests: &Vec<CardLineRequest>) -> (r: Vec<
        Result<(), RequestError>,
    >)
        requires
            old(self).wf(),
        ensures
            final(self).wf(),
            final(self).cards@ == old(self).cards@,
            final(self).hover == old(self).hover,
            final(self).drag == old(self).drag,
            final(self).config == old(self).config,
            batch_applied(
                old(self).table,
                old(self).cards@,
                dragged_card(old(self).drag),
                requests@,
                r@,
                final(self).table,
            ),
    {
        let dragged = self.drag.dragged();
        let mut out: Vec<Result<(), RequestError>> = Vec::new();
        let ghost mut states: Seq<CardTable> = seq![self.table];
        let mut k: usize = 0;
        while k < requests.len()
            invariant
                self.wf(),
                self.cards@ == old(self).cards@,
                self.hover == old(self).hover,
                self.drag == old(self).drag,
                self.config == old(self).config,
                dragged == dragged_card(old(self).drag),
                k <= requests@.len(),
                out@.len() == k,
                states.len() == k + 1,
                states[0] == old(self).table,
                states.last() == self.table,
                forall|q: int|
                    0 <= q < k ==> #[trigger] request_step(
                        old(self).cards@,
                        dragged,
                        requests@[q],
                        states[q],
                        out@[q],
                        states[q + 1],
                    ),
            decreases requests@.len() - k,
        {
            let request = requests[k];
            let named = match request.request_type {
                CardLineRequestType::AddToCardLine { card_entity } => Some(card_entity),
                CardLineRequestType::RemoveFromCardLine { card_entity } => Some(card_entity),
                _ => None,
            };
            let unknown = match named {
                Some(c) => self.find_card(c).is_none(),
                None => false,
            };
            let of_dragged = match (named, dragged) {
                (Some(c), Some(d)) => c == d,
                _ => false,
            };
            let ghost before = self.table;
            let ghost old_states = states;
            let res = if unknown {
                Err(RequestError::UnknownEntity)
            } else if of_dragged {
                Err(RequestError::CardDragged)
            } else {
                self.table.apply_request(request)
            };
            out.push(res);
            proof {
                states = states.push(self.table);
                match named {
                    Some(c) => {
                        if !unknown {
                            let j = choose|j: int|
                                0 <= j < self.cards@.len() && self.cards@[j].card == c;
                            assert(old(self).cards@[j].card == c);
                        }
                    },
                    None => {},
                }
                assert(request_step(
                    old(self).cards@,
                    dragged,
                    requests@[k as int],
                    states[k as int],
                    out@[k as int],
                    states[k + 1],
                ));
                assert forall|q: int| 0 <= q < k + 1 implies #[trigger] request_step(
                    old(self).cards@,
                    dragged,
                    requests@[q],
                    states[q],
                    out@[q],
                    states[q + 1],
                ) by {
                    if q < k {
                        assert(states[q] == old_states[q]);
                        assert(states[q + 1] == old_states[q + 1]);
                    }
                }
            }
            k = k + 1;
        }
        out
    }

    /// What the hover resolver reads of each card.
    pub fn hover_candidates(&self) -> (r: Vec<HoverCandidate>)
        requires
            self.wf(),
        ensures
            r@.len() == self.cards@.len(),
            forall|k: int| 0 <= k < r@.len() ==> #[trigger] candidate_of(self.table, self.cards@[k], r@[k]),
    {
        let mut out: Vec<HoverCandidate> = Vec::new();
        let mut k: usize = 0;
        while k < self.cards.len()
            invariant
                self.wf(),
                k <= self.cards@.len(),
                out@.len() == k,
                forall|q: int|
                    0 <= q < k ==> #[trigger] candidate_of(self.table, self.cards@[q], out@[q]),
            decreases self.cards@.len() - k,
        {
            let st = self.cards[k];
            assert(self.cards@[k as int].wf());
            let (slot, rank) = match self.table.locate(st.card) {
                Some((i, s)) => {
                    proof {
                        assert forall|i2: int, s2: int|
                            0 <= i2 < self.table.lines@.len() && 0 <= s2
                                < self.table.lines@[i2].members@.len()
                                && self.table.lines@[i2].members@[s2] == st.card implies i2 == i
                            && s2 == s by {
                            assert(self.table.lines@[i2].members@.contains(st.card));
                            assert(self.table.lines@[i as int].members@.contains(st.card));
                            assert(self.table.lines@[i as int].wf());
                        }
                    }
                    (s as u64, i as u64)
                },
                None => {
                    proof {
                        assert forall|i2: int, s2: int|
                            0 <= i2 < self.table.lines@.len() && 0 <= s2
                                < self.table.lines@[i2].members@.len()
                                && self.table.lines@[i2].members@[s2] == st.card implies false by {
                            assert(self.table.lines@[i2].members@.contains(st.card));
                        }
                    }
                    (0, 0)
                },
            };
            out.push(
                HoverCandidate {
                    card: st.card,
                    pose: st.pose,
                    width: st.width,
                    height: st.height,
                    scale: st.scale,
                    slot,
                    line_rank: rank,
                },
            );
            k = k + 1;
        }
        out
    }

    /// Gives every card its target: a card in a line, unless dragged, its
    /// slot's pose; the dragged card the pointer's position, turned as its
    /// line, lifted by `drag_lift`. A card in no line that was just dropped
    /// stays where it is; any other card in no line keeps its target.
    pub fn refresh_targets(
        &mut self,
        dragged: Option<CardId>,
        dropped: Option<CardId>,
        px: i64,
        py: i64,
    )
        requires
            old(self).wf(),
            abs(px as int) <= COORD_MAX,
            abs(py as int) <= COORD_MAX,
        ensures
            final(self).wf(),
            final(self).table == old(self).table,
            final(self).hover == old(self).hover,
            final(self).drag == old(self).drag,
            final(self).config == old(self).config,
            final(self).cards@.len() == old(self).cards@.len(),
            forall|k: int|
                0 <= k < final(self).cards@.len() ==> {
                    let c = old(self).cards@[k];
                    let n = #[trigger] final(self).cards@[k];
                    &&& n.card == c.card && n.pose == c.pose
                    &&& n.width == c.width && n.height == c.height && n.scale == c.scale
                    &&& (!old(self).table.placed(c.card) && dragged != Some(c.card) && dropped
                        != Some(c.card)) ==> n.target == c.target
                    &&& (!old(self).table.placed(c.card) && dragged != Some(c.card) && dropped
                        == Some(c.card)) ==> n.target == Some(c.pose)
                    &&& (!old(self).table.placed(c.card) && dragged == Some(c.card)) ==> n.target
                        == Some(Pose { x: px, y: py, z: c.pose.z, cos: c.pose.cos, sin: c.pose.sin })
                    &&& forall|i: int, s: int|
                        0 <= i < old(self).table.lines@.len() && 0 <= s
                            < old(self).table.lines@[i].members@.len()
                            && old(self).table.lines@[i].members@[s] == c.card && dragged == Some(
                            c.card,
                        ) ==> n.target == Some(
                            drag_target(old(self).table, i, old(self).config.drag_lift, px, py),
                        )
                    &&& forall|i: int, s: int|
                        0 <= i < old(self).table.lines@.len() && 0 <= s
                            < old(self).table.lines@[i].members@.len()
                            && old(self).table.lines@[i].members@[s] == c.card && dragged != Some(
                            c.card,
                        ) ==> n.target == Some(
                            slot_target(old(self).table, i, s, old(self).hover.hovered),
                        )
                },
    {
        let mut k: usize = 0;
        let ghost before = self.cards@;
        while k < self.cards.len()
            invariant
                old(self).wf(),
                self.table == old(self).table,
                self.hover == old(self).hover,
                self.drag == old(self).drag,
                self.config == old(self).config,
                before == old(self).cards@,
                self.wf(),
                abs(px as int) <= COORD_MAX,
                abs(py as int) <= COORD_MAX,
                k <= self.cards@.len(),
                self.cards@.len() == before.len(),
                forall|q: int| k <= q < before.len() ==> self.cards@[q] == before[q],
                forall|q: int|
                    0 <= q < k ==> {
                        let c = before[q];
                        let n = #[trigger] self.cards@[q];
                        &&& n.card == c.card && n.pose == c.pose
                        &&& n.width == c.width && n.height == c.height && n.scale == c.scale
                        &&& (!old(self).table.placed(c.card) && dragged != Some(c.card)
                            && dropped != Some(c.card)) ==> n.target == c.target
                        &&& (!old(self).table.placed(c.card) && dragged != Some(c.card)
                            && dropped == Some(c.card)) ==> n.target == Some(c.pose)
                        &&& (!old(self).table.placed(c.card) && dragged == Some(c.card))
                            ==> n.target == Some(
                            Pose { x: px, y: py, z: c.pose.z, cos: c.pose.cos, sin: c.pose.sin },
                        )
                        &&& forall|i: int, s: int|
                            0 <= i < old(self).table.lines@.len() && 0 <= s
                                < old(self).table.lines@[i].members@.len()
                                && old(self).table.lines@[i].members@[s] == c.card && dragged
                                == Some(c.card) ==> n.target == Some(
                                drag_target(old(self).table, i, old(self).config.drag_lift, px, py),
                            )
                        &&& forall|i: int, s: int|
                            0 <= i < old(self).table.lines@.len() && 0 <= s
                                < old(self).table.lines@[i].members@.len()
                                && old(self).table.lines@[i].members@[s] == c.card && dragged
                                != Some(c.card) ==> n.target == Some(
                                slot_target(old(self).table, i, s, old(self).hover.hovered),
                            )
                    },
            decreases before.len() - k,
        {
            let mut st = self.cards[k];
            assert(st == before[k as int]);
            let is_dragged = match dragged {
                Some(d) => d == st.card,
                None => false,
            };
            match self.table.locate(st.card) {
                Some((i, s)) => {
                    let line = &self.table.lines[i];
                    assert(line.wf());
                    proof {
                        assert(self.table.lines@[i as int].members@.contains(st.card));
                        assert(self.table.placed(st.card));
                        assert forall|i2: int, s2: int|
                            0 <= i2 < self.table.lines@.len() && 0 <= s2
                                < self.table.lines@[i2].members@.len()
                                && self.table.lines@[i2].members@[s2] == st.card implies i2 == i
                            && s2 == s by {
                            assert(self.table.lines@[i2].members@.contains(st.card));
                            assert(self.table.lines@[i as int].members@.contains(st.card));
                            assert(self.table.lines@[i as int].wf());
                        }
                    }
                    if is_dragged {
                        let lift = self.config.drag_lift;
                        st.target = Some(
                            Pose {
                                x: px,
                                y: py,
                                z: line.origin.z + lift,
                                cos: line.origin.cos,
                                sin: line.origin.sin,
                            },
                        );
                    } else {
                        let hovered = match self.hover.hovered {
                            Some(h) => h == st.card,
                            None => false,
                        };
                        st.target = Some(line.slot_pose_at(line.len(), s, hovered));
                        assert(st.target == Some(
                            slot_target(self.table, i as int, s as int, self.hover.hovered),
                        ));
                    }
                },
                None => {
                    proof {
                        assert forall|i2: int, s2: int|
                            0 <= i2 < self.table.lines@.len() && 0 <= s2
                                < self.table.lines@[i2].members@.len()
                                && self.table.lines@[i2].members@[s2] == st.card implies false by {
                            assert(self.table.lines@[i2].members@.contains(st.card));
                        }
                    }
                    let is_dropped = match dropped {
                        Some(d) => d == st.card,
                        None => false,
                    };
                    if is_dragged {
                        st.target = Some(
                            Pose { x: px, y: py, z: st.pose.z, cos: st.pose.cos, sin: st.pose.sin },
                        );
                    } else if is_dropped {
                        st.target = Some(st.pose);
                    }
                },
            }
            let ghost prev = self.cards@;
            self.cards.set(k, st);
            proof {
                assert(self.cards@ == prev.update(k as int, st));
                assert(self.cards@[k as int] == st);
            }
            k = k + 1;
        }
    }

    /// Moves every card with a target one frame toward it.
    pub fn move_cards(&mut self, alpha: i64)
        requires
            old(self).wf(),
            0 <= alpha <= SMOOTH_ONE,
        ensures
            final(self).wf(),
            final(self).table == old(self).table,
            final(self).hover == old(self).hover,
            final(self).drag == old(self).drag,
            final(self).config == old(self).config,
            final(self).cards@.len() == old(self).cards@.len(),
            forall|k: int|
                0 <= k < final(self).cards@.len() ==> {
                    let c = old(self).cards@[k];
                    let n = #[trigger] final(self).cards@[k];
                    &&& n.card == c.card && n.target == c.target
                    &&& n.width == c.width && n.height == c.height && n.scale == c.scale
                    &&& n.pose == match c.target {
                        Some(t) => mover_step(c.pose, t, alpha as int, old(self).config.settle as int),
                        None => c.pose,
                    }
                },
    {
        let mut k: usize = 0;
        let ghost before = self.cards@;
        while k < self.cards.len()
            invariant
                self.table == old(self).table,
                self.hover == old(self).hover,
                self.drag == old(self).drag,
                self.config == old(self).config,
                before == old(self).cards@,
                self.wf(),
                0 <= alpha <= SMOOTH_ONE,
                k <= self.cards@.len(),
                self.cards@.len() == before.len(),
                forall|q: int| k <= q < before.len() ==> self.cards@[q] == before[q],
                forall|q: int|
                    0 <= q < k ==> {
                        let c = before[q];
                        let n = #[trigger] self.cards@[q];
                        &&& n.card == c.card && n.target == c.target
                        &&& n.width == c.width && n.height == c.height && n.scale == c.scale
                        &&& n.pose == match c.target {
                            Some(t) => mover_step(c.pose, t, alpha as int, self.config.settle as int),
                            None => c.pose,
                        }
                    },
            decreases before.len() - k,
        {
            let mut st = self.cards[k];
            assert(st.wf());
            match st.target {
                Some(t) => {
                    let (p, _done) = step_pose(st.pose, t, alpha, self.config.settle);
                    st.pose = p;
                },
                None => {},
            }
            self.cards.set(k, st);
            k = k + 1;
        }
    }

    /// One frame: applies `requests` in order, steps the drag, resolves the
    /// hovered card, gives every card its target and moves the cards by the
    /// smoothing factor `alpha`.
    pub fn tick(
        &mut self,
        alpha: i64,
        input: PointerInput,
        requests: &Vec<CardLineRequest>,
        card_half_height: i64,
    ) -> (r: TickReport)
        requires
            old(self).wf(),
            0 <= alpha <= SMOOTH_ONE,
            abs(input.x as int) <= COORD_MAX,
            abs(input.y as int) <= COORD_MAX,
            0 <= card_half_height <= LENGTH_MAX,
        ensures
            final(self).wf(),
            r.outcomes@.len() == requests@.len(),
            final(self).drag == next_phase_spec(
                old(self).drag,
                input,
                old(self).hover.hovered,
                old(self).config.drag_threshold as int,
            ),
            final(self).cards@.len() == old(self).cards@.len(),
            final(self).config == old(self).config,
            exists|mid: CardTable|
                batch_applied(
                    old(self).table,
                    old(self).cards@,
                    dragged_card(old(self).drag),
                    requests@,
                    r.outcomes@,
                    mid,
                ) && match dragged_card(final(self).drag) {
                    Some(c) => drag_effect(
                        mid,
                        c,
                        input.x as int,
                        input.y as int,
                        card_half_height as int,
                        r.drag_move,
                        final(self).table,
                    ),
                    None => final(self).table == mid && r.drag_move == DragMove::Stayed,
                },
            forall|k: int|
                0 <= k < final(self).cards@.len() ==> {
                    let c = old(self).cards@[k];
                    let n = #[trigger] final(self).cards@[k];
                    &&& n.card == c.card
                    &&& n.pose == match n.target {
                        Some(t) => mover_step(c.pose, t, alpha as int, old(self).config.settle as int),
                        None => c.pose,
                    }
                },
            forall|k: int, i: int, s: int|
                #![trigger final(self).cards@[k], final(self).table.lines@[i].members@[s]]
                0 <= k < final(self).cards@.len() && 0 <= i < final(self).table.lines@.len() && 0
                    <= s < final(self).table.lines@[i].members@.len()
                    && final(self).table.lines@[i].members@[s] == final(self).cards@[k].card
                    && dragged_card(final(self).drag) == Some(final(self).cards@[k].card)
                    ==> final(self).cards@[k].target == Some(
                    drag_target(
                        final(self).table,
                        i,
                        old(self).config.drag_lift,
                        input.x,
                        input.y,
                    ),
                ),
            forall|k: int, i: int, s: int|
                #![trigger final(self).cards@[k], final(self).table.lines@[i].members@[s]]
                0 <= k < final(self).cards@.len() && 0 <= i < final(self).table.lines@.len() && 0
                    <= s < final(self).table.lines@[i].members@.len()
                    && final(self).table.lines@[i].members@[s] == final(self).cards@[k].card
                    && dragged_card(final(self).drag) != Some(final(self).cards@[k].card)
                    ==> final(self).cards@[k].target == Some(
                    slot_target(final(self).table, i, s, final(self).hover.hovered),
                ),
            exists|cands: Seq<HoverCandidate>|
                cands.len() == old(self).cards@.len() && (forall|k: int|
                    0 <= k < cands.len() ==> #[trigger] candidate_of(
                        final(self).table,
                        old(self).cards@[k],
                        cands[k],
                    )) && hover_outcome(
                    cands,
                    input.x as int,
                    input.y as int,
                    dragged_card(final(self).drag),
                    final(self).hover.hovered,
                ),
            match final(self).hover.hovered {
                Some(h) => exists|k: int|
                    0 <= k < final(self).cards@.len() && (#[trigger] final(self).cards@[k]).card
                        == h,
                None => true,
            },
    {
        let outcomes = self.apply_requests(requests);
        let ghost mid = self.table;
        let ghost cards0 = self.cards@;
        let phase = self.drag.next(input, self.hover.hovered, self.config.drag_threshold);
        self.drag = phase;
        let dragged = phase.dragged();
        let drag_move = match dragged {
            Some(c) => drag_update(&mut self.table, c, input.x, input.y, card_half_height),
            None => DragMove::Stayed,
        };
        let cands = self.hover_candidates();
        proof {
            assert forall|k: int| 0 <= k < cands@.len() implies (#[trigger] cands@[k]).wf() by {
                assert(candidate_of(self.table, self.cards@[k], cands@[k]));
            }
        }
        let hovered = resolve_hover(&cands, input.x, input.y, dragged);
        let _ = self.hover.set(hovered);
        let ghost table_now = self.table;
        let ghost cards_now = self.cards@;
        let dropped = match phase {
            DragPhase::Dropping { card } => Some(card),
            _ => None,
        };
        self.refresh_targets(dragged, dropped, input.x, input.y);
        self.move_cards(alpha);
        proof {
            assert(self.table == table_now);
            assert(cards_now == old(self).cards@);
            assert(forall|k: int|
                0 <= k < cands@.len() ==> #[trigger] candidate_of(
                    self.table,
                    old(self).cards@[k],
                    cands@[k],
                ));
            match hovered {
                Some(h) => {
                    let k = choose|k: int| 0 <= k < cands@.len() && #[trigger] cands@[k].card == h;
                    assert(candidate_of(table_now, cards_now[k], cands@[k]));
                    assert(self.cards@[k].card == h);
                },
                None => {},
            }
        }
        proof {
            assert(batch_applied(
                old(self).table,
                old(self).cards@,
                dragged_card(old(self).drag),
                requests@,
                outcomes@,
                mid,
            ));
            match dragged {
                Some(c) => {
                    assert(drag_effect(
                        mid,
                        c,
                        input.x as int,
                        input.y as int,
                        card_half_height as int,
                        drag_move,
                        self.table,
                    ));
                },
                None => {
                    assert(self.table == mid);
                },
            }
        }
        let r = TickReport { outcomes, drag_move };
        proof {
            assert(r.outcomes@ == outcomes@);
            assert(batch_applied(
                old(self).table,
                old(self).cards@,
                dragged_card(old(self).drag),
                requests@,
                r.outcomes@,
                mid,
            ) && match dragged_card(self.drag) {
                Some(c) => drag_effect(
                    mid,
                    c,
                    input.x as int,
                    input.y as int,
                    card_half_height as int,
                    r.drag_move,
                    self.table,
                ),
                None => self.table == mid && r.drag_move == DragMove::Stayed,
            });
        }
        r
    }
}

/// Pointer travel, held down, that turns a press into a drag.
pub const DEFAULT_DRAG_THRESHOLD: i64 = 4;

/// Depth a dragged card is lifted by.
pub const DEFAULT_DRAG_LIFT: i64 = 10;

/// Distance under which a moving card snaps onto its target.
pub const DEFAULT_SETTLE: i64 = 2;

/// The card subsystem's configuration, from which a core is built.
#[derive(Clone, Copy, Debug, PartialEq, Eq, Structural)]
pub struct CardsPlugin {
    /// Lift of the hovered card, for lines that take the default.
    pub card_hover_height: i64,
    pub print_debug_logs: bool,
}

impl CardsPlugin {
    /// A line that lifts its hovered card by the plugin's default height.
    pub fn new_line(
        &self,
        origin: Pose,
        max_cards: usize,
        card_origin_gap: i64,
        raise_height: i64,
    ) -> (r: CardLine)
        requires
            origin.wf(),
            card_origin_gap <= LENGTH_MAX,
            0 <= raise_height <= LENGTH_MAX,
            0 <= self.card_hover_height <= LENGTH_MAX,
        ensures
            r.wf(),
            r.card_hover_height == self.card_hover_height,
            r.origin == origin,
            r.max_cards == (if max_cards == 0 {
                1
            } else if max_cards > MAX_CARDS_LIMIT {
                MAX_CARDS_LIMIT
            } else {
                max_cards
            }),
            r.card_origin_gap == (if card_origin_gap <= 0 {
                1
            } else {
                card_origin_gap
            }),
            !r.is_raised,
            r.raise_height == raise_height,
            r.members@.len() == 0,
    {
        CardLine::new(origin, max_cards, card_origin_gap, raise_height, self.card_hover_height)
    }

    /// A core with no lines and no cards, that logs as configured.
    pub fn build(&self) -> (r: CardsCore)
        ensures
            r.wf(),
            r.config == (CoreConfig {
                drag_threshold: DEFAULT_DRAG_THRESHOLD,
                drag_lift: DEFAULT_DRAG_LIFT,
                settle: DEFAULT_SETTLE,
                print_debug_logs: self.print_debug_logs,
            }),
            r.table.lines@.len() == 0,
            r.cards@.len() == 0,
            r.hover.hovered is None,
            r.drag == DragPhase::Idle,
    {
        CardsCore::new(
            CoreConfig {
                drag_threshold: DEFAULT_DRAG_THRESHOLD,
                drag_lift: DEFAULT_DRAG_LIFT,
                settle: DEFAULT_SETTLE,
                print_debug_logs: self.print_debug_logs,
            },
        )
    }
}

} // verus!
