//! The card line: an ordered, bounded row of cards and the layout that
//! places each member at its slot.
use vstd::prelude::*;

use crate::geometry::{
    abs, div_toward_zero, div_trunc, rotate, rotate_x, rotate_y, unrotate, unrotate_x, unrotate_y,
    Pose, COORD_MAX, LENGTH_MAX,
};

verus! {

/// Identity of a card, as the host's entity store hands it out.
pub type CardId = u64;

/// Largest capacity of a line. With spacing at most `LENGTH_MAX`, the slots
/// of a full line then stay within half of `COORD_MAX` of its origin, so that
/// every slot pose fits the coordinate range; a larger capacity is clamped.
pub const MAX_CARDS_LIMIT: usize = 1000;

/// Why an operation on a line was refused.
#[derive(Clone, Copy, Debug, PartialEq, Eq, Structural)]
pub enum LineError {
    /// The line already holds `max_cards` cards.
    LineFull,
    /// The card is not a member of the line.
    NotMember,
}

/// An ordered, bounded row of cards placed along the local X axis of
/// `origin`, `card_origin_gap` apart and centred on it.
#[derive(Clone, Debug)]
pub struct CardLine {
    pub origin: Pose,
    pub max_cards: usize,
    pub card_origin_gap: i64,
    pub is_raised: bool,
    pub raise_height: i64,
    pub card_hover_height: i64,
    pub members: Vec<CardId>,
}

/// Local X offset of slot `i` among `n` slots `gap` apart, centred on zero:
/// `(i - (n - 1) / 2) * gap`, rounded toward zero.
pub open spec fn slot_x(n: int, i: int, gap: int) -> int {
    div_trunc((2 * i + 1 - n) * gap, 2)
}

/// Local Y offset of a slot: the raise of the line, plus the hover lift of
/// the card that stands there if it is hovered.
pub open spec fn slot_y(is_raised: bool, raise_height: int, hovered: bool, hover_height: int) -> int {
    (if is_raised {
        raise_height
    } else {
        0
    }) + (if hovered {
        hover_height
    } else {
        0
    })
}

/// The world pose of slot `i` of a line with `n` members: the local offset of
/// the slot turned by the origin's rotation and added to its translation.
pub open spec fn slot_pose(line: CardLine, n: int, i: int, hovered: bool) -> Pose {
    let lx = slot_x(n, i, line.card_origin_gap as int);
    let ly = slot_y(line.is_raised, line.raise_height as int, hovered, line.card_hover_height as int);
    let o = line.origin;
    Pose {
        x: (o.x + rotate_x(o.cos as int, o.sin as int, lx, ly)) as i64,
        y: (o.y + rotate_y(o.cos as int, o.sin as int, lx, ly)) as i64,
        z: o.z,
        cos: o.cos,
        sin: o.sin,
    }
}

/// Whether the point `(lx, ly)`, in the line's local frame, lies in the box
/// that accepts a dragged card: the slot span widened by half a slot at each
/// end, and the card's height widened by the hover lift.
pub open spec fn in_acceptance_region(
    line: CardLine,
    lx: int,
    ly: int,
    card_half_height: int,
) -> bool {
    let n = if line.members.len() == 0 {
        1
    } else {
        line.members.len() as int
    };
    let base = slot_y(line.is_raised, line.raise_height as int, false, 0);
    2 * abs(lx) <= n * line.card_origin_gap && abs(ly - base) <= card_half_height
        + line.card_hover_height
}

/// Whether a configuration needs clamping: no capacity, or no spacing.
pub open spec fn is_degenerate(max_cards: usize, gap: i64) -> bool {
    max_cards == 0 || gap <= 0
}

pub fn config_is_degenerate(max_cards: usize, gap: i64) -> (r: bool)
    ensures
        r == is_degenerate(max_cards, gap),
{
    max_cards == 0 || gap <= 0
}

/// The target poses of all `n` slots of a line, given which slot, if any,
/// holds the hovered card.
pub open spec fn layout_of(line: CardLine, n: int, hover_slot: Option<usize>) -> Seq<Pose> {
    Seq::new(n as nat, |i: int| slot_pose(line, n, i, hover_slot == Some(i as usize)))
}

/// The layout is a function of the line's origin, spacing, raise state and
/// heights, of its member count and of the hovered slot alone: two lines that
/// agree on those get the same poses, whoever their members are.
pub proof fn lemma_layout_pure(
    a: CardLine,
    b: CardLine,
    hover_a: Option<usize>,
    hover_b: Option<usize>,
)
    requires
        a.origin == b.origin,
        a.card_origin_gap == b.card_origin_gap,
        a.is_raised == b.is_raised,
        a.raise_height == b.raise_height,
        a.card_hover_height == b.card_hover_height,
        a.members@.len() == b.members@.len(),
        hover_a == hover_b,
    ensures
        layout_of(a, a.members@.len() as int, hover_a) == layout_of(
            b,
            b.members@.len() as int,
            hover_b,
        ),
{
    assert(layout_of(a, a.members@.len() as int, hover_a) =~= layout_of(
        b,
        b.members@.len() as int,
        hover_b,
    ));
}

/// Local X offset of slot `i` among `n` slots `gap` apart.
pub fn slot_offset_x(n: usize, i: usize, gap: i64) -> (r: i64)
    requires
        n <= MAX_CARDS_LIMIT,
        i <= n,
        0 < gap <= LENGTH_MAX,
    ensures
        r == slot_x(n as int, i as int, gap as int),
        2 * abs(r as int) <= (n as int + 1) * gap,
        2 * abs(r as int) <= 1_001_000_000,
{
    let k: i64 = 2 * (i as i64) + 1 - (n as i64);
    proof {
        assert(-(n as int) <= k <= n as int + 1);
        assert(-1_001_000_000 <= k * gap <= 1_001_000_000 && abs(k * gap) <= (n as int + 1) * gap)
            by (nonlinear_arith)
            requires
                -(n as int) <= k <= n as int + 1,
                n <= 1000,
                0 < gap <= 1_000_000,
        {}
        let v = k * gap;
        if v >= 0 {
            assert(2 * (v / 2) <= v) by (nonlinear_arith)
                requires
                    v >= 0,
            {}
            assert(v / 2 >= 0) by (nonlinear_arith)
                requires
                    v >= 0,
            {}
        } else {
            assert(2 * ((-v) / 2) <= -v) by (nonlinear_arith)
                requires
                    -v >= 0,
            {}
            assert((-v) / 2 >= 0) by (nonlinear_arith)
                requires
                    -v >= 0,
            {}
        }
    }
    div_toward_zero(k * gap, 2)
}

/// The slot among `n` slots `gap` apart whose centre is closest to the local
/// X coordinate `lx`; the first such slot on a tie.
pub fn nearest_slot(n: usize, gap: i64, lx: i64) -> (r: usize)
    requires
        1 <= n <= MAX_CARDS_LIMIT,
        0 < gap <= LENGTH_MAX,
        abs(lx as int) <= 4 * COORD_MAX,
    ensures
        r < n,
        forall|j: int|
            0 <= j < n ==> abs(slot_x(n as int, r as int, gap as int) - lx) <= abs(
                slot_x(n as int, j, gap as int) - lx,
            ),
{
    let mut best: usize = 0;
    let x0 = slot_offset_x(n, 0, gap);
    let mut best_d: i64 = if x0 >= lx {
        x0 - lx
    } else {
        lx - x0
    };
    let mut i: usize = 1;
    while i < n
        invariant
            1 <= n <= MAX_CARDS_LIMIT,
            0 < gap <= LENGTH_MAX,
            abs(lx as int) <= 4 * COORD_MAX,
            1 <= i <= n,
            best < i,
            best_d == abs(slot_x(n as int, best as int, gap as int) - lx),
            forall|j: int|
                0 <= j < i ==> best_d <= abs(slot_x(n as int, j, gap as int) - lx),
        decreases n - i,
    {
        let x = slot_offset_x(n, i, gap);
        let d: i64 = if x >= lx {
            x - lx
        } else {
            lx - x
        };
        if d < best_d {
            best = i;
            best_d = d;
        }
        i = i + 1;
    }
    best
}

proof fn lemma_push_no_duplicates(s: Seq<CardId>, c: CardId)
    requires
        s.no_duplicates(),
        !s.contains(c),
    ensures
        s.push(c).no_duplicates(),
{
    let t = s.push(c);
    assert forall|i: int, j: int| 0 <= i < t.len() && 0 <= j < t.len() && i != j implies t[i]
        != t[j] by {
        if i == s.len() {
            assert(s[j] == t[j]);
        } else if j == s.len() {
            assert(s[i] == t[i]);
        }
    }
}

proof fn lemma_insert_no_duplicates(s: Seq<CardId>, k: int, c: CardId)
    requires
        s.no_duplicates(),
        !s.contains(c),
        0 <= k <= s.len(),
    ensures
        s.insert(k, c).no_duplicates(),
        s.insert(k, c).to_set() == s.to_set().insert(c),
{
    let t = s.insert(k, c);
    assert forall|i: int, j: int| 0 <= i < t.len() && 0 <= j < t.len() && i != j implies t[i]
        != t[j] by {
        if i == k {
            if j < k {
                assert(t[j] == s[j]);
            } else {
                assert(t[j] == s[j - 1]);
            }
        } else if j == k {
            if i < k {
                assert(t[i] == s[i]);
            } else {
                assert(t[i] == s[i - 1]);
            }
        } else {
            let si = if i < k {
                i
            } else {
                i - 1
            };
            let sj = if j < k {
                j
            } else {
                j - 1
            };
            assert(t[i] == s[si]);
            assert(t[j] == s[sj]);
        }
    }
    assert forall|x: CardId| t.contains(x) <==> s.to_set().insert(c).contains(x) by {
        if t.contains(x) {
            let i = choose|i: int| 0 <= i < t.len() && t[i] == x;
            if i < k {
                assert(s[i] == x);
            } else if i > k {
                assert(s[i - 1] == x);
            }
        }
        if s.contains(x) {
            let i = choose|i: int| 0 <= i < s.len() && s[i] == x;
            if i < k {
                assert(t[i] == x);
            } else {
                assert(t[i + 1] == x);
            }
        }
        if x == c {
            assert(t[k] == c);
        }
    }
    assert(t.to_set() =~= s.to_set().insert(c));
}

proof fn lemma_remove_no_duplicates(s: Seq<CardId>, k: int)
    requires
        s.no_duplicates(),
        0 <= k < s.len(),
    ensures
        s.remove(k).no_duplicates(),
        s.remove(k).to_set() == s.to_set().remove(s[k]),
        !s.remove(k).contains(s[k]),
{
    let t = s.remove(k);
    assert forall|i: int, j: int| 0 <= i < t.len() && 0 <= j < t.len() && i != j implies t[i]
        != t[j] by {
        let si = if i < k {
            i
        } else {
            i + 1
        };
        let sj = if j < k {
            j
        } else {
            j + 1
        };
        assert(t[i] == s[si]);
        assert(t[j] == s[sj]);
    }
    assert forall|x: CardId| t.contains(x) <==> s.to_set().remove(s[k]).contains(x) by {
        if t.contains(x) {
            let i = choose|i: int| 0 <= i < t.len() && t[i] == x;
            if i < k {
                assert(s[i] == x);
            } else {
                assert(s[i + 1] == x);
            }
        }
        if s.contains(x) && x != s[k] {
            let i = choose|i: int| 0 <= i < s.len() && s[i] == x;
            if i < k {
                assert(t[i] == x);
            } else {
                assert(t[i - 1] == x);
            }
        }
    }
    assert(t.to_set() =~= s.to_set().remove(s[k]));
}

impl CardLine {
    /// The configuration lies within its limits, the members fit the
    /// capacity, and no card stands in two slots.
    pub open spec fn wf(&self) -> bool {
        &&& self.origin.wf()
        &&& 1 <= self.max_cards <= MAX_CARDS_LIMIT
        &&& 0 < self.card_origin_gap <= LENGTH_MAX
        &&& 0 <= self.raise_height <= LENGTH_MAX
        &&& 0 <= self.card_hover_height <= LENGTH_MAX
        &&& self.members@.len() <= self.max_cards
        &&& self.members@.no_duplicates()
    }

    /// The same line with other members.
    pub open spec fn same_config(&self, other: &CardLine) -> bool {
        &&& self.origin == other.origin
        &&& self.max_cards == other.max_cards
        &&& self.card_origin_gap == other.card_origin_gap
        &&& self.is_raised == other.is_raised
        &&& self.raise_height == other.raise_height
        &&& self.card_hover_height == other.card_hover_height
    }

    pub open spec fn is_full(&self) -> bool {
        self.members@.len() >= self.max_cards
    }

    /// An empty, lowered line. A capacity of zero becomes one, and a spacing
    /// that is not positive becomes one unit. A capacity above
    /// `MAX_CARDS_LIMIT` becomes that limit.
    pub fn new(
        origin: Pose,
        max_cards: usize,
        card_origin_gap: i64,
        raise_height: i64,
        card_hover_height: i64,
    ) -> (r: CardLine)
        requires
            origin.wf(),
            card_origin_gap <= LENGTH_MAX,
            0 <= raise_height <= LENGTH_MAX,
            0 <= card_hover_height <= LENGTH_MAX,
        ensures
            r.wf(),
            r.origin == origin,
            r.max_cards == (if max_cards == 0 {
                1
            } else if max_cards > MAX_CARDS_LIMIT {
                MAX_CARDS_LIMIT
            } else {
                max_cards
            }),
            r.card_origin_gap == (if card_origin_gap <= 0 {
                1
            } else {
                card_origin_gap
            }),
            !r.is_raised,
            r.raise_height == raise_height,
            r.card_hover_height == card_hover_height,
            r.members@.len() == 0,
    {
        let max_cards = if max_cards == 0 {
            1
        } else if max_cards > MAX_CARDS_LIMIT {
            MAX_CARDS_LIMIT
        } else {
            max_cards
        };
        let card_origin_gap = if card_origin_gap <= 0 {
            1
        } else {
            card_origin_gap
        };
        CardLine {
            origin,
            max_cards,
            card_origin_gap,
            is_raised: false,
            raise_height,
            card_hover_height,
            members: Vec::new(),
        }
    }

    pub fn len(&self) -> (r: usize)
        ensures
            r == self.members@.len(),
    {
        self.members.len()
    }

    /// Position of `card` among the members, if it is one.
    pub fn index_of(&self, card: CardId) -> (r: Option<usize>)
        ensures
            match r {
                Some(i) => i < self.members@.len() && self.members@[i as int] == card,
                None => !self.members@.contains(card),
            },
    {
        let mut i: usize = 0;
        while i < self.members.len()
            invariant
                i <= self.members@.len(),
                forall|j: int| 0 <= j < i ==> self.members@[j] != card,
            decreases self.members@.len() - i,
        {
            if self.members[i] == card {
                return Some(i);
            }
            i = i + 1;
        }
        None
    }

    pub fn contains(&self, card: CardId) -> (r: bool)
        ensures
            r == self.members@.contains(card),
    {
        match self.index_of(card) {
            Some(_) => true,
            None => false,
        }
    }

    /// World pose of slot `i` when the line has `n` members.
    pub fn slot_pose_at(&self, n: usize, i: usize, hovered: bool) -> (r: Pose)
        requires
            self.wf(),
            n <= MAX_CARDS_LIMIT,
            i < n,
        ensures
            r == slot_pose(*self, n as int, i as int, hovered),
            r.bounded(),
    {
        let lx = slot_offset_x(n, i, self.card_origin_gap);
        let mut ly: i64 = 0;
        if self.is_raised {
            ly = ly + self.raise_height;
        }
        if hovered {
            ly = ly + self.card_hover_height;
        }
        let o = self.origin;
        let (dx, dy) = rotate(o.cos, o.sin, lx, ly);
        Pose { x: o.x + dx, y: o.y + dy, z: o.z, cos: o.cos, sin: o.sin }
    }

    /// The target pose of every member, slot by slot. The member at
    /// `hover_slot`, if any, is lifted by `card_hover_height`.
    pub fn layout(&self, hover_slot: Option<usize>) -> (r: Vec<Pose>)
        requires
            self.wf(),
        ensures
            r@ == layout_of(*self, self.members@.len() as int, hover_slot),
            forall|i: int| 0 <= i < r@.len() ==> r@[i].bounded(),
    {
        let n = self.members.len();
        let mut out: Vec<Pose> = Vec::new();
        let mut i: usize = 0;
        while i < n
            invariant
                self.wf(),
                n == self.members@.len(),
                i <= n,
                out@.len() == i,
                forall|j: int|
                    0 <= j < i ==> out@[j] == slot_pose(
                        *self,
                        n as int,
                        j,
                        hover_slot == Some(j as usize),
                    ),
                forall|j: int| 0 <= j < i ==> out@[j].bounded(),
            decreases n - i,
        {
            let hovered = match hover_slot {
                Some(h) => h == i,
                None => false,
            };
            let p = self.slot_pose_at(n, i, hovered);
            out.push(p);
            i = i + 1;
        }
        assert(out@ =~= layout_of(*self, n as int, hover_slot));
        out
    }

    /// The point `(wx, wy)` in the line's local frame.
    pub fn to_local(&self, wx: i64, wy: i64) -> (r: (i64, i64))
        requires
            self.wf(),
            abs(wx as int) <= COORD_MAX,
            abs(wy as int) <= COORD_MAX,
        ensures
            r.0 == unrotate_x(
                self.origin.cos as int,
                self.origin.sin as int,
                wx - self.origin.x,
                wy - self.origin.y,
            ),
            r.1 == unrotate_y(
                self.origin.cos as int,
                self.origin.sin as int,
                wx - self.origin.x,
                wy - self.origin.y,
            ),
            abs(r.0 as int) <= 4 * COORD_MAX,
            abs(r.1 as int) <= 4 * COORD_MAX,
    {
        unrotate(self.origin.cos, self.origin.sin, wx - self.origin.x, wy - self.origin.y)
    }

    /// Whether a dragged card whose centre is at `(lx, ly)` in the line's
    /// local frame is over the line.
    pub fn accepts_at(&self, lx: i64, ly: i64, card_half_height: i64) -> (r: bool)
        requires
            self.wf(),
            abs(lx as int) <= 4 * COORD_MAX,
            abs(ly as int) <= 4 * COORD_MAX,
            0 <= card_half_height <= LENGTH_MAX,
        ensures
            r == in_acceptance_region(*self, lx as int, ly as int, card_half_height as int),
    {
        let n: i64 = if self.members.len() == 0 {
            1
        } else {
            self.members.len() as i64
        };
        let base: i64 = if self.is_raised {
            self.raise_height
        } else {
            0
        };
        let ax: i64 = if lx >= 0 {
            lx
        } else {
            -lx
        };
        let dy: i64 = ly - base;
        let ay: i64 = if dy >= 0 {
            dy
        } else {
            -dy
        };
        proof {
            assert(n * self.card_origin_gap <= 1000 * 1_000_000) by (nonlinear_arith)
                requires
                    1 <= n <= 1000,
                    0 < self.card_origin_gap <= 1_000_000,
            {}
        }
        2 * ax <= n * self.card_origin_gap && ay <= card_half_height + self.card_hover_height
    }

    /// Appends `card` after the last member, unless the line is full.
    pub fn add(&mut self, card: CardId) -> (r: Result<(), LineError>)
        requires
            old(self).wf(),
            !old(self).members@.contains(card),
        ensures
            final(self).wf(),
            final(self).same_config(old(self)),
            r is Ok <==> !old(self).is_full(),
            r is Ok ==> final(self).members@ == old(self).members@.push(card),
            r is Err ==> r == Err::<(), LineError>(LineError::LineFull) && *final(self) == *old(
                self,
            ),
    {
        if self.members.len() >= self.max_cards {
            return Err(LineError::LineFull);
        }
        proof {
            lemma_push_no_duplicates(self.members@, card);
        }
        self.members.push(card);
        Ok(())
    }

    /// Puts `card` at position `index`, clamped to the number of members,
    /// unless the line is full.
    pub fn insert(&mut self, card: CardId, index: usize) -> (r: Result<(), LineError>)
        requires
            old(self).wf(),
            !old(self).members@.contains(card),
        ensures
            final(self).wf(),
            final(self).same_config(old(self)),
            r is Ok <==> !old(self).is_full(),
            r is Ok ==> final(self).members@ == old(self).members@.insert(
                if index <= old(self).members@.len() {
                    index as int
                } else {
                    old(self).members@.len() as int
                },
                card,
            ),
            r is Err ==> r == Err::<(), LineError>(LineError::LineFull) && *final(self) == *old(
                self,
            ),
    {
        if self.members.len() >= self.max_cards {
            return Err(LineError::LineFull);
        }
        let at = if index <= self.members.len() {
            index
        } else {
            self.members.len()
        };
        proof {
            lemma_insert_no_duplicates(self.members@, at as int, card);
        }
        self.members.insert(at, card);
        Ok(())
    }

    /// Takes `card` out of the line; the members after it move up a slot.
    pub fn remove(&mut self, card: CardId) -> (r: Result<(), LineError>)
        requires
            old(self).wf(),
        ensures
            final(self).wf(),
            final(self).same_config(old(self)),
            r is Ok <==> old(self).members@.contains(card),
            r is Ok ==> exists|i: int|
                0 <= i < old(self).members@.len() && old(self).members@[i] == card
                    && final(self).members@ == old(self).members@.remove(i),
            r is Ok ==> final(self).members@.to_set() == old(self).members@.to_set().remove(card),
            !final(self).members@.contains(card),
            r is Err ==> r == Err::<(), LineError>(LineError::NotMember) && *final(self) == *old(
                self,
            ),
    {
        match self.index_of(card) {
            None => Err(LineError::NotMember),
            Some(i) => {
                proof {
                    lemma_remove_no_duplicates(self.members@, i as int);
                }
                self.members.remove(i);
                Ok(())
            },
        }
    }

    /// Moves the member at `from` to position `to`, the others keeping
    /// their order.
    pub fn move_member(&mut self, from: usize, to: usize)
        requires
            old(self).wf(),
            from < old(self).members@.len(),
            to < old(self).members@.len(),
        ensures
            final(self).wf(),
            final(self).same_config(old(self)),
            final(self).members@ == old(self).members@.remove(from as int).insert(
                to as int,
                old(self).members@[from as int],
            ),
            final(self).members@.to_set() == old(self).members@.to_set(),
    {
        let ghost s = self.members@;
        let card = self.members.remove(from);
        proof {
            lemma_remove_no_duplicates(s, from as int);
            lemma_insert_no_duplicates(s.remove(from as int), to as int, card);
            assert(s.to_set().remove(card).insert(card) =~= s.to_set());
        }
        self.members.insert(to, card);
    }

    /// Lifts every slot by `raise_height`. Raising a raised line changes
    /// nothing.
    pub fn raise(&mut self)
        requires
            old(self).wf(),
        ensures
            final(self).wf(),
            final(self).is_raised,
            final(self).origin == old(self).origin,
            final(self).max_cards == old(self).max_cards,
            final(self).card_origin_gap == old(self).card_origin_gap,
            final(self).raise_height == old(self).raise_height,
            final(self).card_hover_height == old(self).card_hover_height,
            final(self).members@ == old(self).members@,
    {
        self.is_raised = true;
    }

    /// Puts the slots back on the line's axis. Lowering a lowered line
    /// changes nothing.
    pub fn lower(&mut self)
        requires
            old(self).wf(),
        ensures
            final(self).wf(),
            !final(self).is_raised,
            final(self).origin == old(self).origin,
            final(self).max_cards == old(self).max_cards,
            final(self).card_origin_gap == old(self).card_origin_gap,
            final(self).raise_height == old(self).raise_height,
            final(self).card_hover_height == old(self).card_hover_height,
            final(self).members@ == old(self).members@,
    {
        self.is_raised = false;
    }
}

} // verus!
