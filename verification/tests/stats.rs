use nihongo_run::sr::{CardState, Scheduler};
use nihongo_run::stats::{card_status, due_in, CardStatus, SrStats};

fn card(interval: u32, reps: u32, due_at: u32) -> CardState {
    CardState { interval, ease: 250, reps, due_at }
}

#[test]
fn status_labels_follow_priority() {
    assert_eq!(card_status(&card(0, 0, 0), 5), CardStatus::New);
    assert_eq!(card_status(&card(30, 4, 5), 5), CardStatus::Due);
    assert_eq!(card_status(&card(6, 2, 9), 5), CardStatus::Learn);
    assert_eq!(card_status(&card(21, 3, 30), 5), CardStatus::Review);
}

#[test]
fn due_in_saturates_at_zero() {
    assert_eq!(due_in(&card(6, 2, 9), 5), 4);
    assert_eq!(due_in(&card(6, 2, 3), 5), 0);
}

#[test]
fn stats_count_each_kind() {
    let mut s = Scheduler::new();
    s.load_words(
        ["a", "b", "c", "d", "e"].iter().map(|w| (w.to_string(), w.to_string())).collect(),
    );
    s.gate_pass_count = 10;
    s.cards[0] = card(1, 0, 11); // new
    s.cards[1] = card(6, 2, 8); // learning, due
    s.cards[2] = card(16, 3, 20); // learning
    s.cards[3] = card(40, 5, 10); // mature, due
    s.cards[4] = card(25, 4, 30); // mature
    assert_eq!(s.stats(), SrStats { new: 1, due: 2, learn: 2, review: 2 });
    let st = s.stats();
    assert_eq!(st.new + st.learn + st.review, 5);
}

#[test]
fn fresh_deck_is_all_new() {
    let mut s = Scheduler::new();
    s.load_words(vec![("a".into(), "A".into()), ("b".into(), "B".into())]);
    assert_eq!(s.stats(), SrStats { new: 2, due: 0, learn: 0, review: 0 });
}
