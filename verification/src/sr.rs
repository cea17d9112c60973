//! SM-2 style spaced-repetition scheduling, measured in gate passes.
//!
//! Intervals are whole numbers of gate passes and the ease factor is held in
//! hundredths (`250` stands for an ease of 2.5).

use vstd::prelude::*;
use rand::rngs::SmallRng;
use rand::Rng;
use rand::SeedableRng;

verus! {

/// Ease given to a card that has never been reviewed (2.5).
pub const DEFAULT_EASE: u32 = 250;
/// Lowest ease a wrong answer can bring a card to (1.3).
pub const MIN_EASE: u32 = 130;
/// Highest ease a right answer can bring a card to (3.0).
pub const MAX_EASE: u32 = 300;
/// Ease gained on a right answer (0.1).
pub const EASE_STEP_UP: u32 = 10;
/// Ease lost on a wrong answer (0.2).
pub const EASE_STEP_DOWN: u32 = 20;
/// Interval after the first right answer in a row.
pub const FIRST_INTERVAL: u32 = 1;
/// Interval after the second right answer in a row.
pub const SECOND_INTERVAL: u32 = 6;

/// Review state of one word.
#[derive(Clone, Copy, Debug, PartialEq, Eq, Structural)]
pub struct CardState {
    /// Gate passes until the next review.
    pub interval: u32,
    /// Interval multiplier, in hundredths.
    pub ease: u32,
    /// Consecutive right answers.
    pub reps: u32,
    /// Gate-pass count at which the card is next due.
    pub due_at: u32,
}

/// The state of a card that has never been reviewed.
pub open spec fn fresh_card() -> CardState {
    CardState { interval: 0, ease: DEFAULT_EASE, reps: 0, due_at: 0 }
}

impl Default for CardState {
    fn default() -> (c: Self)
        ensures
            c == fresh_card(),
    {
        CardState { interval: 0, ease: DEFAULT_EASE, reps: 0, due_at: 0 }
    }
}

/// `a * b / 100`, rounded half up: an interval scaled by an ease in hundredths.
pub open spec fn scaled_interval(interval: int, ease: int) -> int {
    (interval * ease + 50) / 100
}

/// Interval after an answer.
pub open spec fn next_interval(c: CardState, correct: bool) -> int {
    if !correct {
        FIRST_INTERVAL as int
    } else if c.reps == 0 {
        FIRST_INTERVAL as int
    } else if c.reps == 1 {
        SECOND_INTERVAL as int
    } else {
        scaled_interval(c.interval as int, c.ease as int)
    }
}

/// Ease after an answer: up a step (capped) when right, down two (floored) when wrong.
pub open spec fn next_ease(c: CardState, correct: bool) -> int {
    if correct {
        if c.ease + EASE_STEP_UP > MAX_EASE { MAX_EASE as int } else { c.ease + EASE_STEP_UP }
    } else {
        if c.ease - EASE_STEP_DOWN < MIN_EASE { MIN_EASE as int } else { c.ease - EASE_STEP_DOWN }
    }
}

/// Right answers in a row after an answer.
pub open spec fn next_reps(c: CardState, correct: bool) -> int {
    if correct { c.reps + 1 } else { 0 }
}

/// Whether reviewing `c` at gate-pass count `now` keeps every field in range.
pub open spec fn review_fits(c: CardState, correct: bool, now: u32) -> bool {
    &&& next_reps(c, correct) <= u32::MAX
    &&& now + next_interval(c, correct) <= u32::MAX
}

/// The card after it was answered at gate-pass count `now`.
pub open spec fn reviewed(c: CardState, correct: bool, now: u32) -> CardState {
    CardState {
        interval: next_interval(c, correct) as u32,
        ease: next_ease(c, correct) as u32,
        reps: next_reps(c, correct) as u32,
        due_at: (now + next_interval(c, correct)) as u32,
    }
}

/// A card whose fields hold what answers can produce: its ease lies within the
/// bounds and a card with no right answer in a row is not mature.
pub open spec fn card_ok(c: CardState) -> bool {
    &&& MIN_EASE <= c.ease <= MAX_EASE
    &&& c.reps == 0 ==> c.interval < MATURE_INTERVAL
}

/// Interval from which a reviewed card counts as mature.
pub const MATURE_INTERVAL: u32 = 21;

/// The interval after an answer, computed without overflow.
fn next_interval_wide(c: CardState, correct: bool) -> (r: u64)
    ensures
        r == next_interval(c, correct),
{
    if !correct || c.reps == 0 {
        FIRST_INTERVAL as u64
    } else if c.reps == 1 {
        SECOND_INTERVAL as u64
    } else {
        let a: u64 = c.interval as u64;
        let b: u64 = c.ease as u64;
        assert(a * b <= 0xffff_fffe_0000_0001) by (nonlinear_arith)
            requires
                a <= 0xffff_ffff,
                b <= 0xffff_ffff,
        ;
        (a * b + 50) / 100
    }
}

/// Computes the card after an answer at gate-pass count `now`.
pub fn review_card(c: CardState, correct: bool, now: u32) -> (r: CardState)
    requires
        review_fits(c, correct, now),
    ensures
        r == reviewed(c, correct, now),
{
    let interval: u32 = if !correct {
        FIRST_INTERVAL
    } else if c.reps == 0 {
        FIRST_INTERVAL
    } else if c.reps == 1 {
        SECOND_INTERVAL
    } else {
        let wide: u64 = (c.interval as u64) * (c.ease as u64) + 50;
        assert(wide / 100 == scaled_interval(c.interval as int, c.ease as int));
        (wide / 100) as u32
    };
    let ease: u32 = if correct {
        if c.ease >= MAX_EASE - EASE_STEP_UP { MAX_EASE } else { c.ease + EASE_STEP_UP }
    } else {
        if c.ease < MIN_EASE + EASE_STEP_DOWN { MIN_EASE } else { c.ease - EASE_STEP_DOWN }
    };
    let reps: u32 = if correct { c.reps + 1 } else { 0 };
    CardState { interval, ease, reps, due_at: now + interval }
}


#[verifier::external_type_specification]
#[verifier::external_body]
pub struct ExSmallRng(SmallRng);

/// `SmallRng::seed_from_u64` from rand's `SeedableRng`: a generator seeded with
/// `seed`. Nothing is claimed about the generator's state.
#[verifier::external_body]
fn seeded_rng(seed: u64) -> SmallRng {
    SmallRng::seed_from_u64(seed)
}

/// `Rng::gen_range(0..bound)`: rand asserts that the range is not empty and
/// samples uniformly from it, so the result lies below `bound`. Which value
/// comes out depends on the generator's state and is not claimed.
#[verifier::external_body]
fn roll_below(rng: &mut SmallRng, bound: usize) -> (r: usize)
    requires
        bound > 0,
    ensures
        r < bound,
{
    rng.gen_range(0..bound)
}

/// `Rng::gen_ratio(1, 2)`: a fair coin (the same Bernoulli threshold as
/// `gen_bool(0.5)`). Which side comes up is not claimed.
#[verifier::external_body]
fn coin_flip(rng: &mut SmallRng) -> bool {
    rng.gen_ratio(1, 2)
}

/// A never-reviewed card holds what answers can produce.
pub proof fn lemma_fresh_card_ok()
    ensures
        card_ok(fresh_card()),
{
}

/// Answering keeps a card's ease within [1.3, 3.0] and keeps a card with no
/// run of right answers from being mature.
pub proof fn lemma_review_keeps_card_ok(c: CardState, correct: bool, now: u32)
    requires
        card_ok(c),
        review_fits(c, correct, now),
    ensures
        card_ok(reviewed(c, correct, now)),
{
}

/// Recording an answer keeps every card of a deck in range when all were:
/// eases stay within [1.3, 3.0] and no card without a run of right answers is
/// mature.
pub proof fn lemma_record_keeps_deck_ok(cards: Seq<CardState>, i: int, correct: bool, now: u32)
    requires
        0 <= i < cards.len(),
        forall|j: int| 0 <= j < cards.len() ==> card_ok(#[trigger] cards[j]),
        review_fits(cards[i], correct, now),
    ensures
        forall|j: int| 0 <= j < cards.len() ==>
            card_ok(#[trigger] cards.update(i, reviewed(cards[i], correct, now))[j]),
{
    assert(card_ok(cards[i]));
}

/// What an answer does to a card, over every card and gate count. A wrong
/// answer: interval one gate, no run of right answers, due at the next gate,
/// and the ease lowered by 0.2 but not below 1.3, whatever the card's run was.
/// A right answer: the run grows by one, the ease rises by 0.1 but not above
/// 3.0, the interval is 1 after the first right answer in a row, 6 after the
/// second, and the old interval times the ease (rounded half up) after that;
/// the card is due that many gates from now.
pub proof fn lemma_review_rule(c: CardState, now: u32)
    ensures
        review_fits(c, false, now) ==> {
            let r = reviewed(c, false, now);
            &&& r.interval == 1
            &&& r.reps == 0
            &&& r.due_at == now + 1
            &&& r.ease == (if c.ease >= 150 { c.ease - 20 } else { 130 })
        },
        review_fits(c, true, now) ==> {
            let r = reviewed(c, true, now);
            &&& r.reps == c.reps + 1
            &&& r.ease == (if c.ease <= 290 { c.ease + 10 } else { 300 })
            &&& r.interval == (if c.reps == 0 { 1 } else if c.reps == 1 { 6 } else {
                (c.interval * c.ease + 50) / 100 })
            &&& r.due_at == now + r.interval
        },
{
}

/// Missing a word again and again wears its ease down: each miss lowers it by
/// 0.2 until it rests at 1.3, whether or not the card had a run of right
/// answers.
pub proof fn lemma_misses_lower_ease(c: CardState, now: u32)
    requires
        review_fits(c, false, now),
        MIN_EASE <= c.ease,
    ensures
        c.ease >= 150 ==> reviewed(c, false, now).ease == c.ease - 20,
        c.ease > 130 ==> reviewed(c, false, now).ease < c.ease,
        reviewed(c, false, now).ease >= 130,
{
}

/// A wrong answer resets the card: interval one gate, no run of right answers,
/// due at the next gate pass.
pub proof fn lemma_wrong_answer_resets(c: CardState, now: u32)
    requires
        review_fits(c, false, now),
    ensures
        reviewed(c, false, now).interval == FIRST_INTERVAL,
        reviewed(c, false, now).reps == 0,
        reviewed(c, false, now).due_at == now + 1,
{
}

/// Right answers in a row schedule a card 1, then 6 gate passes ahead, then
/// never closer than before (for an ease of at least 1.0), and strictly
/// further once the interval is at least 2 and the ease at least 1.3.
pub proof fn lemma_right_answer_grows_interval(c: CardState)
    ensures
        c.reps == 0 ==> next_interval(c, true) == FIRST_INTERVAL,
        c.reps == 1 ==> next_interval(c, true) == SECOND_INTERVAL,
        c.reps >= 2 && c.ease >= 100 ==> next_interval(c, true) >= c.interval,
        c.reps >= 2 && c.ease >= MIN_EASE && c.interval >= 2 ==> next_interval(c, true) > c.interval,
{
    if c.reps >= 2 && c.ease >= 100 {
        let i = c.interval as int;
        let e = c.ease as int;
        assert((i * e + 50) / 100 >= i) by (nonlinear_arith)
            requires
                i >= 0,
                e >= 100,
        ;
        if e >= 130 && i >= 2 {
            assert((i * e + 50) / 100 > i) by (nonlinear_arith)
                requires
                    i >= 2,
                    e >= 130,
            ;
        }
    }
}

/// Indices below `k` of the cards due at gate-pass count `now`, in increasing order.
pub open spec fn due_upto(cards: Seq<CardState>, now: u32, k: int) -> Seq<usize>
    decreases k,
{
    if k <= 0 {
        Seq::empty()
    } else {
        let prev = due_upto(cards, now, k - 1);
        if cards[k - 1].due_at <= now {
            prev.push((k - 1) as usize)
        } else {
            prev
        }
    }
}

/// Indices of all cards due at gate-pass count `now`, in increasing order.
pub open spec fn due_list(cards: Seq<CardState>, now: u32) -> Seq<usize> {
    due_upto(cards, now, cards.len() as int)
}

/// `q` is the first card whose due time is the earliest of all.
pub open spec fn is_first_earliest(cards: Seq<CardState>, q: int) -> bool {
    &&& 0 <= q < cards.len()
    &&& forall|j: int| 0 <= j < cards.len() ==> cards[q].due_at <= #[trigger] cards[j].due_at
    &&& forall|j: int| 0 <= j < q ==> cards[q].due_at < #[trigger] cards[j].due_at
}

/// The word index a distractor roll below `n - 1` stands for, skipping the question `q`.
pub open spec fn distractor_index(q: int, roll: int) -> int {
    if roll >= q { roll + 1 } else { roll }
}

/// What due_upto holds: due cards below `k`, each once, in increasing order,
/// and every due card below `k` among them.
pub proof fn lemma_due_upto(cards: Seq<CardState>, now: u32, k: int)
    requires
        0 <= k <= cards.len(),
        cards.len() <= usize::MAX,
    ensures
        due_upto(cards, now, k).len() <= k,
        forall|j: int| 0 <= j < due_upto(cards, now, k).len() ==>
            (#[trigger] due_upto(cards, now, k)[j]) < k
            && cards[due_upto(cards, now, k)[j] as int].due_at <= now,
        forall|a: int, b: int| 0 <= a < b < due_upto(cards, now, k).len() ==>
            #[trigger] due_upto(cards, now, k)[a] < #[trigger] due_upto(cards, now, k)[b],
        forall|i: int| 0 <= i < k && #[trigger] cards[i].due_at <= now ==>
            due_upto(cards, now, k).contains(i as usize),
    decreases k,
{
    if k > 0 {
        lemma_due_upto(cards, now, k - 1);
        let prev = due_upto(cards, now, k - 1);
        if cards[k - 1].due_at <= now {
            assert(prev.push((k - 1) as usize)[prev.len() as int] == (k - 1) as usize);
            assert forall|i: int| 0 <= i < k && #[trigger] cards[i].due_at <= now implies
                due_upto(cards, now, k).contains(i as usize) by {
                if i < k - 1 {
                    let w = choose|w: int| 0 <= w < prev.len() && prev[w] == i as usize;
                    assert(due_upto(cards, now, k)[w] == i as usize);
                } else {
                    assert(due_upto(cards, now, k)[prev.len() as int] == i as usize);
                }
            }
        }
    }
}

/// What one gate shows: the question on the crossbeam and an answer on each side.
pub struct GatePlan {
    /// Shown on the crossbeam.
    pub question: String,
    /// Shown on the left sign.
    pub answer_left: String,
    /// Shown on the right sign.
    pub answer_right: String,
    /// Whether the left sign holds the right answer.
    pub correct_is_left: bool,
    /// The word asked.
    pub word_index: usize,
}

impl GatePlan {
    /// The sign that holds the right answer.
    pub open spec fn correct_answer(&self) -> String {
        if self.correct_is_left { self.answer_left } else { self.answer_right }
    }

    /// The sign that holds the distractor.
    pub open spec fn wrong_answer(&self) -> String {
        if self.correct_is_left { self.answer_right } else { self.answer_left }
    }

    /// Lays out a picked `(display, correct, distractor, word index)` with the
    /// right answer on the given side.
    pub fn arrange(picked: (String, String, String, usize), correct_is_left: bool) -> (g: GatePlan)
        ensures
            g.question == picked.0,
            g.correct_is_left == correct_is_left,
            g.word_index == picked.3,
            g.answer_left == (if correct_is_left { picked.1 } else { picked.2 }),
            g.answer_right == (if correct_is_left { picked.2 } else { picked.1 }),
    {
        let (question, correct, distractor, word_index) = picked;
        if correct_is_left {
            GatePlan { question, answer_left: correct, answer_right: distractor, correct_is_left, word_index }
        } else {
            GatePlan { question, answer_left: distractor, answer_right: correct, correct_is_left, word_index }
        }
    }
}

/// After a gate answered wrong, `pass_gate` leaves that word due, so it is
/// among the words the next pick draws from.
pub proof fn lemma_missed_word_due_next(cards: Seq<CardState>, now: u32, i: int)
    requires
        0 <= i < cards.len(),
        cards.len() <= usize::MAX,
        review_fits(cards[i], false, now),
        now < u32::MAX,
    ensures
        due_list(cards.update(i, reviewed(cards[i], false, now)), (now + 1) as u32).contains(i as usize),
{
    let after = cards.update(i, reviewed(cards[i], false, now));
    assert(after[i].due_at <= (now + 1) as u32);
    lemma_due_upto(after, (now + 1) as u32, after.len() as int);
}

/// Picks words for gates and keeps each word's review state.
pub struct Scheduler {
    /// `(hiragana, display)`: display is the kanji form when there is one, else hiragana.
    pub words: Vec<(String, String)>,
    /// Review state of `words[i]` at index `i`.
    pub cards: Vec<CardState>,
    /// Gates passed so far: the scheduler's clock.
    pub gate_pass_count: u32,
    /// Source of the random choices.
    pub rng: SmallRng,
}

impl Scheduler {
    /// One review state per word.
    pub open spec fn wf(&self) -> bool {
        self.cards@.len() == self.words@.len()
    }

    /// An empty scheduler at gate-pass count zero, its generator seeded with 42.
    pub fn new() -> (s: Self)
        ensures
            s.wf(),
            s.words@.len() == 0,
            s.cards@.len() == 0,
            s.gate_pass_count == 0,
    {
        Scheduler {
            words: Vec::new(),
            cards: Vec::new(),
            gate_pass_count: 0,
            rng: seeded_rng(42),
        }
    }

    /// Replaces the word list and resets every card to the never-reviewed state.
    pub fn load_words(&mut self, words: Vec<(String, String)>)
        ensures
            final(self).wf(),
            final(self).words@ == words@,
            forall|i: int| 0 <= i < words@.len() ==> #[trigger] final(self).cards@[i] == fresh_card(),
            final(self).gate_pass_count == old(self).gate_pass_count,
            final(self).rng == old(self).rng,
    {
        let n = words.len();
        self.words = words;
        let mut cards: Vec<CardState> = Vec::new();
        let mut i: usize = 0;
        while i < n
            invariant
                i <= n,
                cards@.len() == i,
                forall|j: int| 0 <= j < i ==> #[trigger] cards@[j] == fresh_card(),
            decreases n - i,
        {
            cards.push(CardState::default());
            i += 1;
        }
        self.cards = cards;
    }

    /// Whether there is any word to ask.
    pub fn is_ready(&self) -> (r: bool)
        ensures
            r == (self.words@.len() > 0),
    {
        self.words.len() != 0
    }

    /// Indices of the cards due now, in increasing order.
    fn due_indices(&self) -> (due: Vec<usize>)
        requires
            self.wf(),
        ensures
            due@ == due_list(self.cards@, self.gate_pass_count),
            forall|j: int| 0 <= j < due@.len() ==>
                (#[trigger] due@[j]) < self.cards@.len()
                && self.cards@[due@[j] as int].due_at <= self.gate_pass_count,
    {
        let n = self.cards.len();
        let mut due: Vec<usize> = Vec::new();
        let mut i: usize = 0;
        while i < n
            invariant
                i <= n,
                n == self.cards@.len(),
                due@ == due_upto(self.cards@, self.gate_pass_count, i as int),
            decreases n - i,
        {
            if self.cards[i].due_at <= self.gate_pass_count {
                due.push(i);
            }
            i += 1;
        }
        proof {
            lemma_due_upto(self.cards@, self.gate_pass_count, n as int);
        }
        due
    }

    /// The first card with the earliest due time.
    fn earliest_card(&self) -> (q: usize)
        requires
            self.cards@.len() > 0,
        ensures
            is_first_earliest(self.cards@, q as int),
    {
        let n = self.cards.len();
        let mut best: usize = 0;
        let mut i: usize = 1;
        while i < n
            invariant
                1 <= i <= n,
                n == self.cards@.len(),
                best < i,
                forall|j: int| 0 <= j < i ==> self.cards@[best as int].due_at <= #[trigger] self.cards@[j].due_at,
                forall|j: int| 0 <= j < best ==> self.cards@[best as int].due_at < #[trigger] self.cards@[j].due_at,
            decreases n - i,
        {
            if self.cards[i].due_at < self.cards[best].due_at {
                best = i;
            }
            i += 1;
        }
        best
    }

    /// The question for word `q` with the distractor roll `roll`:
    /// `(display, correct hiragana, distractor hiragana, q)`.
    fn question_for(&self, q: usize, roll: usize) -> (r: (String, String, String, usize))
        requires
            q < self.words@.len(),
            roll + 1 < self.words@.len(),
        ensures
            r.0@ == self.words@[q as int].1@,
            r.1@ == self.words@[q as int].0@,
            r.2@ == self.words@[distractor_index(q as int, roll as int)].0@,
            r.3 == q,
    {
        let n = self.words.len();
        let d: usize = if roll >= q { roll + 1 } else { roll };
        (self.words[q].1.clone(), self.words[q].0.clone(), self.words[d].0.clone(), q)
    }

    /// Picks the question from given rolls: the `due_roll`-th due card when some
    /// card is due, else the first card with the earliest due time; the
    /// distractor is the `distractor_roll`-th of the other words. Returns
    /// `(display, correct hiragana, distractor hiragana, word index)`.
    pub fn pick_with(&self, due_roll: usize, distractor_roll: usize) -> (r: (String, String, String, usize))
        requires
            self.wf(),
            self.words@.len() >= 2,
            distractor_roll < self.words@.len() - 1,
            due_list(self.cards@, self.gate_pass_count).len() > 0 ==>
                due_roll < due_list(self.cards@, self.gate_pass_count).len(),
        ensures
            r.3 < self.words@.len(),
            due_list(self.cards@, self.gate_pass_count).len() > 0 ==>
                r.3 == due_list(self.cards@, self.gate_pass_count)[due_roll as int],
            due_list(self.cards@, self.gate_pass_count).len() == 0 ==>
                is_first_earliest(self.cards@, r.3 as int),
            r.0@ == self.words@[r.3 as int].1@,
            r.1@ == self.words@[r.3 as int].0@,
            r.2@ == self.words@[distractor_index(r.3 as int, distractor_roll as int)].0@,
    {
        let due = self.due_indices();
        let q = if due.len() > 0 { due[due_roll] } else { self.earliest_card() };
        self.question_for(q, distractor_roll)
    }

    /// Picks the next question at random: a due card when there is one (each
    /// equally likely), else the first card with the earliest due time; the
    /// distractor is another word. Returns
    /// `(display, correct hiragana, distractor hiragana, word index)`.
    pub fn pick(&mut self) -> (r: (String, String, String, usize))
        requires
            old(self).wf(),
            old(self).words@.len() >= 2,
        ensures
            final(self).wf(),
            final(self).words == old(self).words,
            final(self).cards == old(self).cards,
            final(self).gate_pass_count == old(self).gate_pass_count,
            r.3 < old(self).words@.len(),
            due_list(old(self).cards@, old(self).gate_pass_count).len() > 0 ==>
                due_list(old(self).cards@, old(self).gate_pass_count).contains(r.3),
            due_list(old(self).cards@, old(self).gate_pass_count).len() == 0 ==>
                is_first_earliest(old(self).cards@, r.3 as int),
            r.0@ == old(self).words@[r.3 as int].1@,
            r.1@ == old(self).words@[r.3 as int].0@,
            exists|d: int| 0 <= d < old(self).words@.len() && d != r.3
                && r.2@ == #[trigger] old(self).words@[d].0@,
    {
        let n = self.words.len();
        let due = self.due_indices();
        let q = if due.len() > 0 {
            let k = roll_below(&mut self.rng, due.len());
            due[k]
        } else {
            self.earliest_card()
        };
        let roll = roll_below(&mut self.rng, n - 1);
        let r = self.question_for(q, roll);
        assert(r.2@ == self.words@[distractor_index(q as int, roll as int)].0@);
        r
    }

    /// Whether `record(word_index, correct)` keeps every field in range now.
    pub fn record_fits(&self, word_index: usize, correct: bool) -> (r: bool)
        ensures
            r == (word_index < self.cards@.len()
                && review_fits(self.cards@[word_index as int], correct, self.gate_pass_count)),
    {
        if word_index >= self.cards.len() {
            return false;
        }
        let c = self.cards[word_index];
        if correct && c.reps == u32::MAX {
            return false;
        }
        let next = next_interval_wide(c, correct);
        next <= (u32::MAX - self.gate_pass_count) as u64
    }

    /// Updates the review state of `word_index` after a right or wrong answer:
    /// a right answer schedules it 1, then 6, then `interval * ease` gate passes
    /// ahead and raises the ease by 0.1 up to 3.0; a wrong answer schedules it
    /// for the next gate, clears the run of right answers and lowers the ease by
    /// 0.2 down to 1.3.
    pub fn record(&mut self, word_index: usize, correct: bool)
        requires
            old(self).wf(),
            word_index < old(self).cards@.len(),
            review_fits(old(self).cards@[word_index as int], correct, old(self).gate_pass_count),
        ensures
            final(self).wf(),
            final(self).cards@ == old(self).cards@.update(
                word_index as int,
                reviewed(old(self).cards@[word_index as int], correct, old(self).gate_pass_count),
            ),
            final(self).words == old(self).words,
            final(self).gate_pass_count == old(self).gate_pass_count,
            final(self).rng == old(self).rng,
    {
        let c = self.cards[word_index];
        let updated = review_card(c, correct, self.gate_pass_count);
        self.cards.set(word_index, updated);
    }

    /// Records the answer given at a gate, then advances the clock by one pass.
    pub fn pass_gate(&mut self, word_index: usize, correct: bool)
        requires
            old(self).wf(),
            word_index < old(self).cards@.len(),
            review_fits(old(self).cards@[word_index as int], correct, old(self).gate_pass_count),
            old(self).gate_pass_count < u32::MAX,
        ensures
            final(self).wf(),
            final(self).cards@ == old(self).cards@.update(
                word_index as int,
                reviewed(old(self).cards@[word_index as int], correct, old(self).gate_pass_count),
            ),
            final(self).words == old(self).words,
            final(self).gate_pass_count == old(self).gate_pass_count + 1,
            final(self).rng == old(self).rng,
    {
        self.record(word_index, correct);
        self.gate_pass_count = self.gate_pass_count + 1;
    }

    /// Picks the next question and, by a fair coin, the side its right answer
    /// goes on.
    pub fn plan_gate(&mut self) -> (g: GatePlan)
        requires
            old(self).wf(),
            old(self).words@.len() >= 2,
        ensures
            final(self).wf(),
            final(self).words == old(self).words,
            final(self).cards == old(self).cards,
            final(self).gate_pass_count == old(self).gate_pass_count,
            g.word_index < old(self).words@.len(),
            due_list(old(self).cards@, old(self).gate_pass_count).len() > 0 ==>
                due_list(old(self).cards@, old(self).gate_pass_count).contains(g.word_index),
            due_list(old(self).cards@, old(self).gate_pass_count).len() == 0 ==>
                is_first_earliest(old(self).cards@, g.word_index as int),
            g.question@ == old(self).words@[g.word_index as int].1@,
            g.correct_answer()@ == old(self).words@[g.word_index as int].0@,
            exists|d: int| 0 <= d < old(self).words@.len() && d != g.word_index
                && g.wrong_answer()@ == #[trigger] old(self).words@[d].0@,
    {
        let picked = self.pick();
        let correct_is_left = coin_flip(&mut self.rng);
        GatePlan::arrange(picked, correct_is_left)
    }
}

} // verus!
