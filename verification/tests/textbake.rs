use nihongo_run::textbake::{outline_radius, BakeCache, TextKind, QUESTION_OUTLINE};

#[test]
fn only_questions_are_outlined() {
    assert_eq!(outline_radius(TextKind::Question), QUESTION_OUTLINE);
    assert_eq!(QUESTION_OUTLINE, 6);
    assert_eq!(outline_radius(TextKind::Answer), 0);
}

#[test]
fn cache_returns_what_was_baked() {
    let mut c: BakeCache<u32> = BakeCache::new();
    assert_eq!(c.len(), 0);
    assert_eq!(c.get("あ", TextKind::Question), None);
    c.insert("あ", TextKind::Question, 7);
    assert_eq!(c.get("あ", TextKind::Question), Some(&7));
    assert_eq!(c.get("あ", TextKind::Answer), None);
    assert_eq!(c.len(), 1);
}

#[test]
fn cache_keys_on_text_and_kind() {
    let mut c: BakeCache<&str> = BakeCache::new();
    c.insert("か", TextKind::Question, "q");
    c.insert("か", TextKind::Answer, "a");
    c.insert("き", TextKind::Answer, "b");
    assert_eq!(c.len(), 3);
    assert_eq!(c.get("か", TextKind::Question), Some(&"q"));
    assert_eq!(c.get("か", TextKind::Answer), Some(&"a"));
    assert_eq!(c.get("き", TextKind::Answer), Some(&"b"));
}

#[test]
fn reinserting_a_pair_replaces_without_growing() {
    let mut c: BakeCache<u8> = BakeCache::new();
    c.insert("ka", TextKind::Answer, 1);
    c.insert("ka", TextKind::Answer, 2);
    assert_eq!(c.len(), 1);
    assert_eq!(c.get("ka", TextKind::Answer), Some(&2));
}
