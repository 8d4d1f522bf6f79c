//! The set of lines in a scene, and the requests that change them.
use vstd::prelude::*;

use crate::card_line::{CardId, CardLine, LineError};

verus! {

/// Identity of a line, as the host's entity store hands it out.
pub type LineId = u64;

/// What a request asks of its line.
#[derive(Clone, Copy, Debug, PartialEq, Eq, Structural)]
pub enum CardLineRequestType {
    AddToCardLine { card_entity: CardId },
    RemoveFromCardLine { card_entity: CardId },
    RaiseCardLine,
    LowerCardLine,
}

/// A command addressed to one line.
#[derive(Clone, Copy, Debug, PartialEq, Eq, Structural)]
pub struct CardLineRequest {
    pub line: LineId,
    pub request_type: CardLineRequestType,
}

/// Why a request was dropped.
#[derive(Clone, Copy, Debug, PartialEq, Eq, Structural)]
pub enum RequestError {
    /// The line holds `max_cards` cards already.
    LineFull,
    /// The card to remove is not a member of the line.
    NotMember,
    /// No line, or no tracked card, has the requested identity.
    UnknownEntity,
    /// The card is being dragged; it keeps its line until it is dropped.
    CardDragged,
}

/// No card is a member of two different lines.
pub open spec fn lines_disjoint(lines: Seq<CardLine>) -> bool {
    forall|i: int, j: int, c: CardId|
        0 <= i < lines.len() && 0 <= j < lines.len() && i != j && #[trigger] lines[i].members@.contains(c)
            ==> !#[trigger] lines[j].members@.contains(c)
}

/// Line `i` of `b` is line `i` of `a`, raised or lowered as `raised` says.
pub open spec fn with_raised(a: CardLine, b: CardLine, raised: bool) -> bool {
    &&& b.origin == a.origin
    &&& b.max_cards == a.max_cards
    &&& b.card_origin_gap == a.card_origin_gap
    &&& b.raise_height == a.raise_height
    &&& b.card_hover_height == a.card_hover_height
    &&& b.members@ == a.members@
    &&& b.is_raised == raised
}

/// `b` is `a` without `card`, the other members keeping their order.
pub open spec fn without_card(a: CardLine, b: CardLine, card: CardId) -> bool {
    &&& b.same_config(&a)
    &&& exists|k: int|
        0 <= k < a.members@.len() && a.members@[k] == card && b.members@ == a.members@.remove(k)
}

/// Every line but line `i` of `b` is that line of `a`, without `card` if
/// it held it.
pub open spec fn others_lose_card(a: Seq<CardLine>, b: Seq<CardLine>, i: int, card: CardId) -> bool {
    forall|j: int|
        0 <= j < a.len() && j != i ==> if a[j].members@.contains(card) {
            without_card(a[j], b[j], card)
        } else {
            b[j] == a[j]
        }
}

/// What `request` does to the lines of a table, line `i` being the one it
/// addresses, and what it reports.
pub open spec fn applied_to_line(
    a: Seq<CardLine>,
    i: int,
    request_type: CardLineRequestType,
    r: Result<(), RequestError>,
    b: Seq<CardLine>,
) -> bool {
    let l = a[i];
    let m = b[i];
    let others_kept = forall|j: int| 0 <= j < a.len() && j != i ==> b[j] == a[j];
    match request_type {
        CardLineRequestType::RaiseCardLine => r is Ok && with_raised(l, m, true) && others_kept,
        CardLineRequestType::LowerCardLine => r is Ok && with_raised(l, m, false) && others_kept,
        CardLineRequestType::RemoveFromCardLine { card_entity } => if l.members@.contains(
            card_entity,
        ) {
            r is Ok && without_card(l, m, card_entity) && others_kept
        } else {
            r == Err::<(), RequestError>(RequestError::NotMember) && b == a
        },
        CardLineRequestType::AddToCardLine { card_entity } => if l.members@.contains(card_entity) {
            r is Ok && b == a
        } else if l.is_full() {
            r == Err::<(), RequestError>(RequestError::LineFull) && b == a
        } else {
            &&& r is Ok
            &&& m.same_config(&l)
            &&& m.members@ == l.members@.push(card_entity)
            &&& forall|j: int|
                0 <= j < a.len() && j != i ==> if a[j].members@.contains(card_entity) {
                    without_card(a[j], b[j], card_entity)
                } else {
                    b[j] == a[j]
                }
        },
    }
}

/// What `request` does to a table `a`, giving `b`, and what it reports.
pub open spec fn applied(
    a: CardTable,
    request: CardLineRequest,
    r: Result<(), RequestError>,
    b: CardTable,
) -> bool {
    &&& b.ids@ == a.ids@
    &&& b.lines@.len() == a.lines@.len()
    &&& if !a.ids@.contains(request.line) {
        r == Err::<(), RequestError>(RequestError::UnknownEntity) && b.lines@ == a.lines@
    } else {
        forall|i: int|
            0 <= i < a.ids@.len() && a.ids@[i] == request.line ==> applied_to_line(
                a.lines@,
                i,
                request.request_type,
                r,
                b.lines@,
            )
    }
}

/// In a well-formed table a card is a member of at most one line, whatever
/// requests produced it.
pub proof fn lemma_card_in_one_line(t: CardTable, card: CardId, i: int, j: int)
    requires
        t.wf(),
        0 <= i < t.lines@.len(),
        0 <= j < t.lines@.len(),
        t.lines@[i].members@.contains(card),
        t.lines@[j].members@.contains(card),
    ensures
        i == j,
{
}

/// In a well-formed table no line holds more cards than its capacity.
pub proof fn lemma_lines_within_capacity(t: CardTable, i: int)
    requires
        t.wf(),
        0 <= i < t.lines@.len(),
    ensures
        t.lines@[i].members@.len() <= t.lines@[i].max_cards,
{
    assert(t.lines@[i].wf());
}

/// The add requests of a batch that all address line `i`, for `cards` in
/// that order.
pub open spec fn adds_to_line(
    t: CardTable,
    i: int,
    batch: Seq<CardLineRequest>,
    cards: Seq<CardId>,
) -> bool {
    &&& cards.len() == batch.len()
    &&& forall|k: int|
        0 <= k < batch.len() ==> #[trigger] batch[k] == (CardLineRequest {
            line: t.ids@[i],
            request_type: CardLineRequestType::AddToCardLine { card_entity: cards[k] },
        })
}

proof fn lemma_adds_prefix(
    states: Seq<CardTable>,
    batch: Seq<CardLineRequest>,
    outcomes: Seq<Result<(), RequestError>>,
    i: int,
    cards: Seq<CardId>,
    k: int,
)
    requires
        states.len() == batch.len() + 1,
        outcomes.len() == batch.len(),
        forall|q: int|
            0 <= q < batch.len() ==> #[trigger] applied(
                states[q],
                batch[q],
                outcomes[q],
                states[q + 1],
            ),
        states[0].wf(),
        0 <= i < states[0].lines@.len(),
        adds_to_line(states[0], i, batch, cards),
        cards.no_duplicates(),
        forall|q: int| 0 <= q < cards.len() ==> !states[0].lines@[i].members@.contains(cards[q]),
        forall|q: int| 0 <= q < outcomes.len() ==> #[trigger] outcomes[q] is Ok,
        0 <= k <= batch.len(),
    ensures
        states[k].ids@ == states[0].ids@,
        states[k].lines@.len() == states[0].lines@.len(),
        states[k].lines@[i].members@ == states[0].lines@[i].members@ + cards.take(k),
    decreases k,
{
    if k > 0 {
        lemma_adds_prefix(states, batch, outcomes, i, cards, k - 1);
        let q = k - 1;
        assert(applied(states[q], batch[q], outcomes[q], states[q + 1]));
        assert(q + 1 == k);
        let a = states[q];
        let b = states[k];
        let c = cards[q];
        let m0 = states[0].lines@[i].members@;
        assert(outcomes[k - 1] is Ok);
        assert(a.ids@[i] == states[0].ids@[i]);
        assert(a.ids@.contains(batch[k - 1].line));
        assert(applied_to_line(a.lines@, i, batch[k - 1].request_type, outcomes[k - 1], b.lines@));
        assert(!a.lines@[i].members@.contains(c)) by {
            if a.lines@[i].members@.contains(c) {
                let j = choose|j: int|
                    0 <= j < a.lines@[i].members@.len() && a.lines@[i].members@[j] == c;
                if j < m0.len() {
                    assert(m0[j] == c);
                    assert(m0.contains(c));
                } else {
                    assert(cards.take(k - 1)[j - m0.len()] == c);
                    assert(cards[j - m0.len()] == c);
                }
            }
        }
        assert(cards.take(k) =~= cards.take(k - 1).push(c));
        assert(m0 + cards.take(k) =~= (m0 + cards.take(k - 1)).push(c));
    }
}

/// Cards added to a line by one batch, and accepted, stand in it after the
/// cards it held before, in the order of their requests.
pub proof fn lemma_adds_keep_order(
    before: CardTable,
    batch: Seq<CardLineRequest>,
    outcomes: Seq<Result<(), RequestError>>,
    states: Seq<CardTable>,
    i: int,
    cards: Seq<CardId>,
)
    requires
        before.wf(),
        states.len() == batch.len() + 1,
        states[0] == before,
        outcomes.len() == batch.len(),
        forall|q: int|
            0 <= q < batch.len() ==> #[trigger] applied(
                states[q],
                batch[q],
                outcomes[q],
                states[q + 1],
            ),
        0 <= i < before.lines@.len(),
        adds_to_line(before, i, batch, cards),
        cards.no_duplicates(),
        forall|q: int| 0 <= q < cards.len() ==> !before.lines@[i].members@.contains(cards[q]),
        forall|q: int| 0 <= q < outcomes.len() ==> #[trigger] outcomes[q] is Ok,
    ensures
        states.last().lines@[i].members@ == before.lines@[i].members@ + cards,
{
    lemma_adds_prefix(states, batch, outcomes, i, cards, batch.len() as int);
    assert(cards.take(batch.len() as int) =~= cards);
}

/// Every line of a scene, each under its identity.
pub struct CardTable {
    pub ids: Vec<LineId>,
    pub lines: Vec<CardLine>,
}

impl CardTable {
    pub open spec fn wf(&self) -> bool {
        &&& self.ids@.len() == self.lines@.len()
        &&& self.ids@.no_duplicates()
        &&& forall|i: int| 0 <= i < self.lines@.len() ==> #[trigger] self.lines@[i].wf()
        &&& lines_disjoint(self.lines@)
    }

    /// Whether `card` is a member of some line.
    pub open spec fn placed(&self, card: CardId) -> bool {
        exists|i: int| 0 <= i < self.lines@.len() && #[trigger] self.lines@[i].members@.contains(card)
    }

    pub fn new() -> (r: CardTable)
        ensures
            r.wf(),
            r.lines@.len() == 0,
    {
        CardTable { ids: Vec::new(), lines: Vec::new() }
    }

    /// Position of the line `id`, if there is one.
    pub fn find_line(&self, id: LineId) -> (r: Option<usize>)
        requires
            self.wf(),
        ensures
            match r {
                Some(i) => i < self.ids@.len() && self.ids@[i as int] == id,
                None => !self.ids@.contains(id),
            },
    {
        let mut i: usize = 0;
        while i < self.ids.len()
            invariant
                i <= self.ids@.len(),
                forall|j: int| 0 <= j < i ==> self.ids@[j] != id,
            decreases self.ids@.len() - i,
        {
            if self.ids[i] == id {
                return Some(i);
            }
            i = i + 1;
        }
        None
    }

    /// Position of the line that holds `card` and the card's slot in it.
    pub fn locate(&self, card: CardId) -> (r: Option<(usize, usize)>)
        requires
            self.wf(),
        ensures
            match r {
                Some((i, k)) => i < self.lines@.len() && k < self.lines@[i as int].members@.len()
                    && self.lines@[i as int].members@[k as int] == card,
                None => !self.placed(card),
            },
    {
        let mut i: usize = 0;
        while i < self.lines.len()
            invariant
                i <= self.lines@.len(),
                forall|j: int| 0 <= j < i ==> !(#[trigger] self.lines@[j]).members@.contains(card),
            decreases self.lines@.len() - i,
        {
            match self.lines[i].index_of(card) {
                Some(k) => {
                    return Some((i, k));
                },
                None => {},
            }
            i = i + 1;
        }
        None
    }

    /// Registers an empty line under `id`. Refused, with nothing changed,
    /// when `id` is taken.
    pub fn add_line(&mut self, id: LineId, line: CardLine) -> (r: bool)
        requires
            old(self).wf(),
            line.wf(),
            line.members@.len() == 0,
        ensures
            final(self).wf(),
            r == !old(self).ids@.contains(id),
            r ==> final(self).ids@ == old(self).ids@.push(id) && final(self).lines@ == old(
                self,
            ).lines@.push(line),
            !r ==> final(self).ids@ == old(self).ids@ && final(self).lines@ == old(self).lines@,
    {
        match self.find_line(id) {
            Some(_) => false,
            None => {
                let ghost s = self.ids@;
                proof {
                    assert forall|i: int, j: int|
                        0 <= i < s.len() + 1 && 0 <= j < s.len() + 1 && i != j implies s.push(
                        id,
                    )[i] != s.push(id)[j] by {
                        if i == s.len() {
                            assert(s[j] == s.push(id)[j]);
                        } else if j == s.len() {
                            assert(s[i] == s.push(id)[i]);
                        }
                    }
                }
                self.ids.push(id);
                self.lines.push(line);
                true
            },
        }
    }

    /// Forgets the line `id`. Its members no longer belong to any line.
    pub fn remove_line(&mut self, id: LineId) -> (r: bool)
        requires
            old(self).wf(),
        ensures
            final(self).wf(),
            r == old(self).ids@.contains(id),
            !final(self).ids@.contains(id),
            r ==> exists|i: int|
                0 <= i < old(self).ids@.len() && old(self).ids@[i] == id && final(self).ids@ == old(
                    self,
                ).ids@.remove(i) && final(self).lines@ == old(self).lines@.remove(i),
            !r ==> final(self).ids@ == old(self).ids@ && final(self).lines@ == old(self).lines@,
    {
        match self.find_line(id) {
            None => false,
            Some(i) => {
                let ghost s = self.ids@;
                let ghost ls = self.lines@;
                self.ids.remove(i);
                self.lines.remove(i);
                proof {
                    let t = s.remove(i as int);
                    assert forall|a: int, b: int|
                        0 <= a < t.len() && 0 <= b < t.len() && a != b implies t[a] != t[b] by {
                        let sa = if a < i {
                            a
                        } else {
                            a + 1
                        };
                        let sb = if b < i {
                            b
                        } else {
                            b + 1
                        };
                        assert(t[a] == s[sa]);
                        assert(t[b] == s[sb]);
                    }
                    assert forall|a: int| 0 <= a < t.len() implies t[a] != id by {
                        let sa = if a < i {
                            a
                        } else {
                            a + 1
                        };
                        assert(t[a] == s[sa]);
                    }
                    let tl = ls.remove(i as int);
                    assert forall|a: int, b: int, c: CardId|
                        0 <= a < tl.len() && 0 <= b < tl.len() && a != b
                            && #[trigger] tl[a].members@.contains(c) implies !#[trigger] tl[b].members@.contains(
                        c,
                    ) by {
                        let sa = if a < i {
                            a
                        } else {
                            a + 1
                        };
                        let sb = if b < i {
                            b
                        } else {
                            b + 1
                        };
                        assert(tl[a] == ls[sa]);
                        assert(tl[b] == ls[sb]);
                    }
                    assert forall|a: int| 0 <= a < tl.len() implies #[trigger] tl[a].wf() by {
                        let sa = if a < i {
                            a
                        } else {
                            a + 1
                        };
                        assert(tl[a] == ls[sa]);
                    }
                }
                true
            },
        }
    }

    /// Applies one request to the line it addresses.
    pub fn apply_request(&mut self, request: CardLineRequest) -> (r: Result<(), RequestError>)
        requires
            old(self).wf(),
        ensures
            final(self).wf(),
            applied(*old(self), request, r, *final(self)),
    {
        let i = match self.find_line(request.line) {
            None => {
                return Err(RequestError::UnknownEntity);
            },
            Some(i) => i,
        };
        let ghost a = self.lines@;
        proof {
            assert(self.ids@.contains(request.line));
            assert forall|j: int|
                0 <= j < self.ids@.len() && self.ids@[j] == request.line implies j == i by {}
        }
        match request.request_type {
            CardLineRequestType::RaiseCardLine => {
                self.lines[i].raise();
                proof {
                    self.lemma_line_changed(a, i as int);
                }
                Ok(())
            },
            CardLineRequestType::LowerCardLine => {
                self.lines[i].lower();
                proof {
                    self.lemma_line_changed(a, i as int);
                }
                Ok(())
            },
            CardLineRequestType::RemoveFromCardLine { card_entity } => {
                let res = self.lines[i].remove(card_entity);
                proof {
                    self.lemma_line_changed(a, i as int);
                }
                match res {
                    Ok(()) => Ok(()),
                    Err(_) => {
                        assert(self.lines@ =~= a);
                        Err(RequestError::NotMember)
                    },
                }
            },
            CardLineRequestType::AddToCardLine { card_entity } => {
                if self.lines[i].contains(card_entity) {
                    return Ok(());
                }
                if self.lines[i].len() >= self.lines[i].max_cards {
                    return Err(RequestError::LineFull);
                }
                let _ = self.detach(card_entity);
                let ghost mid = self.lines@;
                proof {
                    assert(mid[i as int] == a[i as int]);
                }
                let res = self.lines[i].add(card_entity);
                proof {
                    assert(res is Ok);
                    self.lemma_line_changed(mid, i as int);
                    assert forall|j: int| 0 <= j < a.len() && j != i implies if a[j].members@.contains(
                        card_entity,
                    ) {
                        without_card(a[j], self.lines@[j], card_entity)
                    } else {
                        self.lines@[j] == a[j]
                    } by {
                        assert(self.lines@[j] == mid[j]);
                    }
                }
                Ok(())
            },
        }
    }

    /// Applies a batch of requests in the order given, and reports the
    /// outcome of each.
    pub fn dispatch(&mut self, batch: &Vec<CardLineRequest>) -> (r: Vec<Result<(), RequestError>>)
        requires
            old(self).wf(),
        ensures
            final(self).wf(),
            r@.len() == batch@.len(),
            exists|states: Seq<CardTable>|
                states.len() == batch@.len() + 1 && states[0] == *old(self) && states.last()
                    == *final(self) && forall|k: int|
                    0 <= k < batch@.len() ==> #[trigger] applied(
                        states[k],
                        batch@[k],
                        r@[k],
                        states[k + 1],
                    ),
    {
        let mut out: Vec<Result<(), RequestError>> = Vec::new();
        let ghost mut states: Seq<CardTable> = seq![*self];
        let mut k: usize = 0;
        while k < batch.len()
            invariant
                self.wf(),
                k <= batch@.len(),
                out@.len() == k,
                states.len() == k + 1,
                states[0] == *old(self),
                states.last() == *self,
                forall|q: int|
                    0 <= q < k ==> #[trigger] applied(states[q], batch@[q], out@[q], states[q + 1]),
            decreases batch@.len() - k,
        {
            let ghost before = *self;
            let res = self.apply_request(batch[k]);
            out.push(res);
            proof {
                let old_states = states;
                states = states.push(*self);
                assert forall|q: int| 0 <= q < k + 1 implies #[trigger] applied(
                    states[q],
                    batch@[q],
                    out@[q],
                    states[q + 1],
                ) by {
                    if q < k {
                        assert(states[q] == old_states[q]);
                        assert(states[q + 1] == old_states[q + 1]);
                    } else {
                        assert(states[q] == before);
                    }
                }
            }
            k = k + 1;
        }
        out
    }

    /// Moves `card` into line `to` at position `slot` (clamped to the
    /// members), taking it out of the line that held it. Refused, with
    /// nothing changed, when `card` is already in `to` or `to` is full.
    pub fn transfer(&mut self, card: CardId, to: usize, slot: usize) -> (r: Result<(), RequestError>)
        requires
            old(self).wf(),
            to < old(self).lines@.len(),
        ensures
            final(self).wf(),
            final(self).ids@ == old(self).ids@,
            final(self).lines@.len() == old(self).lines@.len(),
            r is Ok <==> !old(self).lines@[to as int].members@.contains(card) && !old(
                self,
            ).lines@[to as int].is_full(),
            r is Err ==> r == Err::<(), RequestError>(RequestError::LineFull) && *final(self)
                == *old(self),
            r is Ok ==> final(self).lines@[to as int].same_config(&old(self).lines@[to as int]),
            r is Ok ==> final(self).lines@[to as int].members@ == old(
                self,
            ).lines@[to as int].members@.insert(
                if slot <= old(self).lines@[to as int].members@.len() {
                    slot as int
                } else {
                    old(self).lines@[to as int].members@.len() as int
                },
                card,
            ),
            r is Ok ==> others_lose_card(old(self).lines@, final(self).lines@, to as int, card),
    {
        if self.lines[to].contains(card) || self.lines[to].len() >= self.lines[to].max_cards {
            return Err(RequestError::LineFull);
        }
        let ghost a = self.lines@;
        let _ = self.detach(card);
        let ghost mid = self.lines@;
        let res = self.lines[to].insert(card, slot);
        proof {
            assert(res is Ok);
            assert(mid[to as int] == a[to as int]);
            self.lemma_line_changed(mid, to as int);
            assert forall|j: int| 0 <= j < a.len() && j != to implies if a[j].members@.contains(
                card,
            ) {
                without_card(a[j], self.lines@[j], card)
            } else {
                self.lines@[j] == a[j]
            } by {
                assert(self.lines@[j] == mid[j]);
            }
        }
        Ok(())
    }

    /// Moves the member at `from` of line `i` to position `to` of the same
    /// line.
    pub fn reorder(&mut self, i: usize, from: usize, to: usize)
        requires
            old(self).wf(),
            i < old(self).lines@.len(),
            from < old(self).lines@[i as int].members@.len(),
            to < old(self).lines@[i as int].members@.len(),
        ensures
            final(self).wf(),
            final(self).ids@ == old(self).ids@,
            final(self).lines@.len() == old(self).lines@.len(),
            final(self).lines@[i as int].same_config(&old(self).lines@[i as int]),
            final(self).lines@[i as int].members@ == old(self).lines@[i as int].members@.remove(
                from as int,
            ).insert(to as int, old(self).lines@[i as int].members@[from as int]),
            forall|j: int|
                0 <= j < old(self).lines@.len() && j != i ==> final(self).lines@[j] == old(
                    self,
                ).lines@[j],
    {
        let ghost a = self.lines@;
        self.lines[i].move_member(from, to);
        proof {
            assert forall|c: CardId| #[trigger]
                self.lines@[i as int].members@.contains(c) implies a[i as int].members@.contains(
                c,
            ) by {
                assert(self.lines@[i as int].members@.to_set().contains(c));
            }
            self.lemma_line_changed(a, i as int);
        }
    }

    /// Line `i` was changed in place and no other: if the new line is
    /// well formed and its members came from the old line or were placed
    /// nowhere else, the table is still well formed.
    proof fn lemma_line_changed(&self, a: Seq<CardLine>, i: int)
        requires
            0 <= i < a.len(),
            self.lines@.len() == a.len(),
            self.ids@.len() == a.len(),
            self.ids@.no_duplicates(),
            forall|j: int| 0 <= j < a.len() ==> #[trigger] a[j].wf(),
            lines_disjoint(a),
            self.lines@[i].wf(),
            forall|j: int| 0 <= j < a.len() && j != i ==> self.lines@[j] == a[j],
            forall|c: CardId|
                #[trigger] self.lines@[i].members@.contains(c) ==> a[i].members@.contains(c)
                    || forall|j: int| 0 <= j < a.len() && j != i ==> !a[j].members@.contains(c),
        ensures
            self.wf(),
    {
        let nl = self.lines@;
        assert forall|x: int| 0 <= x < nl.len() implies #[trigger] nl[x].wf() by {
            if x != i {
                assert(nl[x] == a[x]);
            }
        }
        assert forall|x: int, y: int, c: CardId|
            0 <= x < nl.len() && 0 <= y < nl.len() && x != y
                && #[trigger] nl[x].members@.contains(c) implies !#[trigger] nl[y].members@.contains(
            c,
        ) by {
            if x == i {
                assert(nl[y] == a[y]);
            } else if y == i {
                assert(nl[x] == a[x]);
            } else {
                assert(nl[x] == a[x]);
                assert(nl[y] == a[y]);
            }
        }
    }

    /// Takes `card` out of whichever line holds it; used when the host
    /// destroys the card. Returns the position of that line.
    pub fn detach(&mut self, card: CardId) -> (r: Option<usize>)
        requires
            old(self).wf(),
        ensures
            final(self).wf(),
            final(self).ids@ == old(self).ids@,
            final(self).lines@.len() == old(self).lines@.len(),
            !final(self).placed(card),
            r is None <==> !old(self).placed(card),
            r is None ==> final(self).lines@ == old(self).lines@,
            match r {
                Some(i) => final(self).lines@[i as int].members@.to_set() == old(
                    self,
                ).lines@[i as int].members@.to_set().remove(card),
                None => true,
            },
            match r {
                Some(i) => i < old(self).lines@.len() && old(self).lines@[i as int].members@.contains(
                    card,
                ) && (exists|k: int|
                    0 <= k < old(self).lines@[i as int].members@.len()
                        && old(self).lines@[i as int].members@[k] == card
                        && final(self).lines@[i as int].members@ == old(
                        self,
                    ).lines@[i as int].members@.remove(k)) && final(self).lines@[i as int].same_config(
                    &old(self).lines@[i as int],
                ) && forall|j: int|
                    0 <= j < old(self).lines@.len() && j != i ==> final(self).lines@[j] == old(
                        self,
                    ).lines@[j],
                None => true,
            },
    {
        match self.locate(card) {
            None => None,
            Some((i, _k)) => {
                let ghost ls = self.lines@;
                let res = self.lines[i].remove(card);
                proof {
                    let nl = self.lines@;
                    assert(nl == ls.update(i as int, nl[i as int]));
                    assert forall|j: int| 0 <= j < ls.len() && j != i implies nl[j] == ls[j] by {}
                    assert forall|a: int| 0 <= a < nl.len() implies #[trigger] nl[a].wf() by {
                        if a != i {
                            assert(nl[a] == ls[a]);
                        }
                    }
                    assert forall|a: int, b: int, c: CardId|
                        0 <= a < nl.len() && 0 <= b < nl.len() && a != b
                            && #[trigger] nl[a].members@.contains(c) implies !#[trigger] nl[b].members@.contains(
                        c,
                    ) by {
                        if a == i {
                            assert(nl[a].members@.to_set().contains(c));
                            assert(ls[a].members@.to_set().contains(c));
                            assert(ls[a].members@.contains(c));
                            assert(nl[b] == ls[b]);
                        } else if b == i {
                            assert(nl[a] == ls[a]);
                            if nl[b].members@.contains(c) {
                                assert(nl[b].members@.to_set().contains(c));
                                assert(ls[b].members@.contains(c));
                            }
                        } else {
                            assert(nl[a] == ls[a]);
                            assert(nl[b] == ls[b]);
                        }
                    }
                    assert forall|a: int| 0 <= a < nl.len() implies !(
                    #[trigger] nl[a]).members@.contains(card) by {
                        if a != i {
                            assert(nl[a] == ls[a]);
                            assert(ls[i as int].members@.contains(card));
                        }
                    }
                }
                Some(i)
            },
        }
    }
}

} // verus!
