use nihongo_run::supabase::{rows_to_words, Row};

#[test]
fn display_is_kanji_when_present() {
    let rows = vec![
        Row { hiragana: "みず".into(), kanji: Some("水".into()) },
        Row { hiragana: "これ".into(), kanji: None },
    ];
    let words = rows_to_words(rows);
    assert_eq!(
        words,
        vec![("みず".to_string(), "水".to_string()), ("これ".to_string(), "これ".to_string())]
    );
}

#[test]
fn no_rows_give_no_words() {
    assert!(rows_to_words(Vec::new()).is_empty());
}
