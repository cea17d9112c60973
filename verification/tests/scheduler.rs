use nihongo_run::sr::{CardState, GatePlan, Scheduler, DEFAULT_EASE, MAX_EASE, MIN_EASE};

fn pairs(words: &[(&str, &str)]) -> Vec<(String, String)> {
    words.iter().map(|&(a, b)| (a.to_string(), b.to_string())).collect()
}

fn loaded(words: &[(&str, &str)]) -> Scheduler {
    let mut s = Scheduler::new();
    s.load_words(pairs(words));
    s
}

#[test]
fn default_card_is_unreviewed() {
    let c = CardState::default();
    assert_eq!(c, CardState { interval: 0, ease: 250, reps: 0, due_at: 0 });
    assert_eq!(DEFAULT_EASE, 250);
}

#[test]
fn new_scheduler_is_empty_and_not_ready() {
    let s = Scheduler::new();
    assert!(s.words.is_empty());
    assert!(s.cards.is_empty());
    assert_eq!(s.gate_pass_count, 0);
    assert!(!s.is_ready());
}

#[test]
fn load_words_resets_every_card() {
    let mut s = loaded(&[("a", "x"), ("b", "y")]);
    s.gate_pass_count = 3;
    s.record(0, true);
    s.load_words(pairs(&[("c", "z"), ("d", "w"), ("e", "v")]));
    assert_eq!(s.words.len(), 3);
    assert_eq!(s.cards.len(), 3);
    assert!(s.cards.iter().all(|c| *c == CardState::default()));
    assert_eq!(s.gate_pass_count, 3);
    assert!(s.is_ready());
}

#[test]
fn right_answers_schedule_one_then_six_then_scaled() {
    let mut s = loaded(&[("a", "x"), ("b", "y")]);
    s.record(0, true);
    assert_eq!(s.cards[0], CardState { interval: 1, ease: 260, reps: 1, due_at: 1 });
    s.gate_pass_count = 1;
    s.record(0, true);
    assert_eq!(s.cards[0], CardState { interval: 6, ease: 270, reps: 2, due_at: 7 });
    s.gate_pass_count = 7;
    s.record(0, true);
    // 6 * 2.7 = 16.2 rounds to 16
    assert_eq!(s.cards[0], CardState { interval: 16, ease: 280, reps: 3, due_at: 23 });
    // the other card is untouched
    assert_eq!(s.cards[1], CardState::default());
}

#[test]
fn scaled_interval_rounds_half_up() {
    let mut s = loaded(&[("a", "x"), ("b", "y")]);
    // 5 * 2.5 = 12.5 rounds to 13
    s.cards[0] = CardState { interval: 5, ease: 250, reps: 2, due_at: 0 };
    s.record(0, true);
    assert_eq!(s.cards[0].interval, 13);
    // 3 * 1.3 = 3.9 rounds to 4
    s.cards[1] = CardState { interval: 3, ease: 130, reps: 4, due_at: 0 };
    s.record(1, true);
    assert_eq!(s.cards[1].interval, 4);
    assert_eq!(s.cards[1].ease, 140);
}

#[test]
fn ease_is_capped_and_floored() {
    let mut s = loaded(&[("a", "x"), ("b", "y")]);
    s.cards[0] = CardState { interval: 10, ease: 295, reps: 3, due_at: 0 };
    s.record(0, true);
    assert_eq!(s.cards[0].ease, MAX_EASE);
    s.cards[1] = CardState { interval: 10, ease: 140, reps: 3, due_at: 0 };
    s.record(1, false);
    assert_eq!(s.cards[1].ease, MIN_EASE);
}

#[test]
fn wrong_answer_resets_card_to_next_gate() {
    let mut s = loaded(&[("a", "x"), ("b", "y")]);
    s.cards[0] = CardState { interval: 30, ease: 250, reps: 5, due_at: 40 };
    s.gate_pass_count = 12;
    s.record(0, false);
    assert_eq!(s.cards[0], CardState { interval: 1, ease: 230, reps: 0, due_at: 13 });
}

#[test]
fn pass_gate_records_and_advances_clock() {
    let mut s = loaded(&[("a", "x"), ("b", "y")]);
    s.gate_pass_count = 4;
    s.pass_gate(1, false);
    assert_eq!(s.gate_pass_count, 5);
    assert_eq!(s.cards[1].due_at, 5);
    // the missed word is due at the next pick
    assert!(s.cards[1].due_at <= s.gate_pass_count);
}

#[test]
fn record_fits_reports_overflow() {
    let mut s = loaded(&[("a", "x"), ("b", "y")]);
    assert!(s.record_fits(0, true));
    assert!(!s.record_fits(2, true));
    s.gate_pass_count = u32::MAX;
    assert!(!s.record_fits(0, false));
    s.gate_pass_count = 0;
    s.cards[0].reps = u32::MAX;
    assert!(!s.record_fits(0, true));
    assert!(s.record_fits(0, false));
}

#[test]
fn pick_with_prefers_due_cards() {
    let mut s = loaded(&[("a", "A"), ("b", "B"), ("c", "C"), ("d", "D")]);
    s.gate_pass_count = 5;
    s.cards[0].due_at = 9;
    s.cards[1].due_at = 5;
    s.cards[2].due_at = 7;
    s.cards[3].due_at = 2;
    // due cards are 1 and 3, in that order
    let (display, correct, distractor, q) = s.pick_with(1, 0);
    assert_eq!(q, 3);
    assert_eq!(display, "D");
    assert_eq!(correct, "d");
    assert_eq!(distractor, "a");
    let (_, _, distractor, q) = s.pick_with(0, 1);
    assert_eq!(q, 1);
    // roll 1 is at or past the question, so it skips to word 2
    assert_eq!(distractor, "c");
}

#[test]
fn pick_with_takes_first_earliest_when_none_due() {
    let mut s = loaded(&[("a", "A"), ("b", "B"), ("c", "C")]);
    s.gate_pass_count = 1;
    s.cards[0].due_at = 8;
    s.cards[1].due_at = 4;
    s.cards[2].due_at = 4;
    let (display, correct, distractor, q) = s.pick_with(0, 1);
    assert_eq!(q, 1);
    assert_eq!(display, "B");
    assert_eq!(correct, "b");
    assert_eq!(distractor, "c");
}

#[test]
fn pick_never_offers_the_question_as_distractor() {
    let mut s = loaded(&[("a", "A"), ("b", "B"), ("c", "C"), ("d", "D"), ("e", "E")]);
    for round in 0..200u32 {
        let now = s.gate_pass_count;
        let any_due = s.cards.iter().any(|c| c.due_at <= now);
        let earliest = s.cards.iter().map(|c| c.due_at).min().unwrap();
        let (display, correct, distractor, q) = s.pick();
        assert!(q < 5);
        assert_eq!(display, s.words[q].1);
        assert_eq!(correct, s.words[q].0);
        assert_ne!(distractor, correct);
        if any_due {
            assert!(s.cards[q].due_at <= now);
        } else {
            assert_eq!(s.cards[q].due_at, earliest);
        }
        s.pass_gate(q, round % 3 != 0);
    }
}

#[test]
fn pick_draws_both_words_of_a_pair() {
    let mut s = loaded(&[("a", "A"), ("b", "B")]);
    let mut seen = [false, false];
    for _ in 0..100 {
        let (_, correct, distractor, q) = s.pick();
        seen[q] = true;
        assert_ne!(correct, distractor);
    }
    assert!(seen[0] && seen[1]);
}

#[test]
fn pick_is_reproducible_from_the_fixed_seed() {
    let mut a = loaded(&[("a", "A"), ("b", "B"), ("c", "C"), ("d", "D")]);
    let mut b = loaded(&[("a", "A"), ("b", "B"), ("c", "C"), ("d", "D")]);
    for _ in 0..20 {
        assert_eq!(a.pick(), b.pick());
    }
}

#[test]
fn pick_falls_back_to_earliest_card() {
    let mut s = loaded(&[("a", "A"), ("b", "B"), ("c", "C")]);
    s.cards[0].due_at = 9;
    s.cards[1].due_at = 3;
    s.cards[2].due_at = 6;
    for _ in 0..20 {
        let (_, _, _, q) = s.pick();
        assert_eq!(q, 1);
    }
}

#[test]
fn arrange_puts_the_answer_on_the_chosen_side() {
    let picked = ("D".to_string(), "d".to_string(), "a".to_string(), 3usize);
    let left: GatePlan = GatePlan::arrange(picked.clone(), true);
    assert_eq!(left.answer_left, "d");
    assert_eq!(left.answer_right, "a");
    assert_eq!(left.question, "D");
    assert_eq!(left.word_index, 3);
    let right = GatePlan::arrange(picked, false);
    assert_eq!(right.answer_left, "a");
    assert_eq!(right.answer_right, "d");
    assert!(!right.correct_is_left);
}

#[test]
fn plan_gate_uses_both_sides() {
    let mut s = loaded(&[("a", "A"), ("b", "B"), ("c", "C")]);
    let mut sides = [false, false];
    for _ in 0..100 {
        let g = s.plan_gate();
        let (right, wrong) = if g.correct_is_left {
            (&g.answer_left, &g.answer_right)
        } else {
            (&g.answer_right, &g.answer_left)
        };
        assert_eq!(*right, s.words[g.word_index].0);
        assert_eq!(g.question, s.words[g.word_index].1);
        assert_ne!(right, wrong);
        sides[g.correct_is_left as usize] = true;
    }
    assert!(sides[0] && sides[1]);
}
