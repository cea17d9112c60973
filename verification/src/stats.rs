//! Review statistics shown about the scheduler: how many cards are new, due,
//! learning or mature, and each card's status.

use vstd::prelude::*;
use crate::sr::{CardState, Scheduler, MATURE_INTERVAL};

verus! {

/// A never-reviewed card (no right answer in a row).
pub open spec fn is_new(c: CardState) -> bool {
    c.reps == 0
}

/// A card with a run of right answers that is due at gate-pass count `now`.
pub open spec fn is_due_review(c: CardState, now: u32) -> bool {
    c.due_at <= now && c.reps > 0
}

/// A card with a run of right answers whose interval is still short.
pub open spec fn is_learning(c: CardState) -> bool {
    c.reps > 0 && c.interval < MATURE_INTERVAL
}

/// A card whose interval has grown long.
pub open spec fn is_mature(c: CardState) -> bool {
    c.interval >= MATURE_INTERVAL
}

/// The four counts, by kind: 0 new, 1 due, 2 learning, 3 mature.
pub open spec fn in_kind(c: CardState, now: u32, kind: int) -> bool {
    if kind == 0 {
        is_new(c)
    } else if kind == 1 {
        is_due_review(c, now)
    } else if kind == 2 {
        is_learning(c)
    } else {
        is_mature(c)
    }
}

/// How many of `cards` are of the given kind.
pub open spec fn count_kind(cards: Seq<CardState>, now: u32, kind: int) -> nat
    decreases cards.len(),
{
    if cards.len() == 0 {
        0
    } else {
        count_kind(cards.drop_last(), now, kind) + if in_kind(cards.last(), now, kind) { 1nat } else { 0nat }
    }
}

/// Counts shown above the card table.
#[derive(Clone, Copy, Debug, PartialEq, Eq, Structural)]
pub struct SrStats {
    /// Cards never answered right.
    pub new: usize,
    /// Cards with a run of right answers that are due now.
    pub due: usize,
    /// Cards with a run of right answers and a short interval.
    pub learn: usize,
    /// Cards with a long interval.
    pub review: usize,
}

/// The status label of one card.
#[derive(Clone, Copy, Debug, PartialEq, Eq, Structural)]
pub enum CardStatus {
    New,
    Due,
    Learn,
    Review,
}

/// Status of `c` at gate-pass count `now`: new, else due, else learning, else review.
pub open spec fn status_of(c: CardState, now: u32) -> CardStatus {
    if c.reps == 0 {
        CardStatus::New
    } else if c.due_at <= now {
        CardStatus::Due
    } else if c.interval < MATURE_INTERVAL {
        CardStatus::Learn
    } else {
        CardStatus::Review
    }
}

/// The status label of `c` at gate-pass count `now`.
pub fn card_status(c: &CardState, now: u32) -> (s: CardStatus)
    ensures
        s == status_of(*c, now),
{
    if c.reps == 0 {
        CardStatus::New
    } else if c.due_at <= now {
        CardStatus::Due
    } else if c.interval < MATURE_INTERVAL {
        CardStatus::Learn
    } else {
        CardStatus::Review
    }
}

/// Gate passes until `c` is due, zero when it already is.
pub fn due_in(c: &CardState, now: u32) -> (r: u32)
    ensures
        r == (if c.due_at >= now { c.due_at - now } else { 0 }),
{
    c.due_at.saturating_sub(now)
}

fn kind_holds(c: &CardState, now: u32, kind: usize) -> (b: bool)
    ensures
        b == in_kind(*c, now, kind as int),
{
    if kind == 0 {
        c.reps == 0
    } else if kind == 1 {
        c.due_at <= now && c.reps > 0
    } else if kind == 2 {
        c.reps > 0 && c.interval < MATURE_INTERVAL
    } else {
        c.interval >= MATURE_INTERVAL
    }
}

fn count_of(cards: &Vec<CardState>, now: u32, kind: usize) -> (n: usize)
    ensures
        n == count_kind(cards@, now, kind as int),
{
    let len = cards.len();
    let mut n: usize = 0;
    let mut i: usize = 0;
    while i < len
        invariant
            i <= len,
            len == cards@.len(),
            n <= i,
            n == count_kind(cards@.take(i as int), now, kind as int),
        decreases len - i,
    {
        assert(cards@.take(i + 1).drop_last() == cards@.take(i as int));
        if kind_holds(&cards[i], now, kind) {
            n = n + 1;
        }
        i = i + 1;
    }
    assert(cards@.take(len as int) == cards@);
    n
}

impl Scheduler {
    /// The new, due, learning and mature counts at the current gate-pass count.
    pub fn stats(&self) -> (st: SrStats)
        ensures
            st.new == count_kind(self.cards@, self.gate_pass_count, 0),
            st.due == count_kind(self.cards@, self.gate_pass_count, 1),
            st.learn == count_kind(self.cards@, self.gate_pass_count, 2),
            st.review == count_kind(self.cards@, self.gate_pass_count, 3),
    {
        let now = self.gate_pass_count;
        SrStats {
            new: count_of(&self.cards, now, 0),
            due: count_of(&self.cards, now, 1),
            learn: count_of(&self.cards, now, 2),
            review: count_of(&self.cards, now, 3),
        }
    }
}

/// Every card that is new only while its interval is short is exactly one of
/// new, learning or mature, so those three counts add up to the number of cards.
pub proof fn lemma_counts_partition(cards: Seq<CardState>, now: u32)
    requires
        forall|i: int| 0 <= i < cards.len() ==>
            (#[trigger] cards[i]).reps == 0 ==> cards[i].interval < MATURE_INTERVAL,
    ensures
        count_kind(cards, now, 0) + count_kind(cards, now, 2) + count_kind(cards, now, 3) == cards.len(),
    decreases cards.len(),
{
    if cards.len() > 0 {
        let rest = cards.drop_last();
        assert forall|i: int| 0 <= i < rest.len() && (#[trigger] rest[i]).reps == 0 implies
            rest[i].interval < MATURE_INTERVAL by {
            assert(rest[i] == cards[i]);
        }
        lemma_counts_partition(rest, now);
        let last = cards[cards.len() - 1];
        assert(last.reps == 0 ==> last.interval < MATURE_INTERVAL);
    }
}

/// Counting a kind is counting the cards of that kind.
proof fn lemma_count_is_filter(cards: Seq<CardState>, now: u32, kind: int, p: spec_fn(CardState) -> bool)
    requires
        forall|c: CardState| #[trigger] p(c) == in_kind(c, now, kind),
    ensures
        count_kind(cards, now, kind) == cards.filter(p).len(),
    decreases cards.len(),
{
    reveal_with_fuel(Seq::filter, 1);
    if cards.len() > 0 {
        lemma_count_is_filter(cards.drop_last(), now, kind, p);
        assert(p(cards.last()) == in_kind(cards.last(), now, kind));
    }
}

/// The four counts count exactly the cards described: new ones have no run
/// of right answers; due ones have a run and are due now; learning ones have a
/// run and an interval under 21 gates; mature ones have an interval of 21 or more.
pub proof fn lemma_counts_count(cards: Seq<CardState>, now: u32)
    ensures
        count_kind(cards, now, 0) == cards.filter(|c: CardState| c.reps == 0).len(),
        count_kind(cards, now, 1) == cards.filter(|c: CardState| c.reps > 0 && c.due_at <= now).len(),
        count_kind(cards, now, 2) == cards.filter(|c: CardState| c.reps > 0 && c.interval < 21).len(),
        count_kind(cards, now, 3) == cards.filter(|c: CardState| c.interval >= 21).len(),
{
    lemma_count_is_filter(cards, now, 0, |c: CardState| c.reps == 0);
    lemma_count_is_filter(cards, now, 1, |c: CardState| c.reps > 0 && c.due_at <= now);
    lemma_count_is_filter(cards, now, 2, |c: CardState| c.reps > 0 && c.interval < 21);
    lemma_count_is_filter(cards, now, 3, |c: CardState| c.interval >= 21);
}

/// Each card's label, in terms of its fields: new without a run of right
/// answers; due with a run and due now; otherwise learning below an interval
/// of 21 gates and review from 21 on.
pub proof fn lemma_status_rule(c: CardState, now: u32)
    ensures
        (status_of(c, now) == CardStatus::New) <==> c.reps == 0,
        (status_of(c, now) == CardStatus::Due) <==> (c.reps > 0 && c.due_at <= now),
        (status_of(c, now) == CardStatus::Learn) <==> (c.reps > 0 && c.due_at > now && c.interval < 21),
        (status_of(c, now) == CardStatus::Review) <==> (c.reps > 0 && c.due_at > now && c.interval >= 21),
{
}

/// The status label agrees with the counts: a card labelled new is counted as
/// new, one labelled due is counted as due, and a card counted as mature is
/// labelled due or review.
pub proof fn lemma_status_matches_counts(c: CardState, now: u32)
    ensures
        (status_of(c, now) == CardStatus::New) == in_kind(c, now, 0),
        (status_of(c, now) == CardStatus::Due) == in_kind(c, now, 1),
        status_of(c, now) == CardStatus::Learn ==> in_kind(c, now, 2),
        status_of(c, now) == CardStatus::Review ==> in_kind(c, now, 3),
{
}

} // verus!
