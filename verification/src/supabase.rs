//! The vocabulary rows fetched from the word database and the word pairs the
//! scheduler is loaded with.

use vstd::prelude::*;

verus! {

/// One fetched row: a word in hiragana and, when it has one, its kanji form.
pub struct Row {
    pub hiragana: String,
    pub kanji: Option<String>,
}

/// The form a row is displayed in: its kanji when present, else its hiragana.
pub open spec fn display_of(r: Row) -> Seq<char> {
    match r.kanji {
        Some(k) => k@,
        None => r.hiragana@,
    }
}

/// Turns fetched rows into `(hiragana, display)` pairs, in order, where the
/// display is the kanji form when available and the hiragana otherwise.
pub fn rows_to_words(rows: Vec<Row>) -> (words: Vec<(String, String)>)
    ensures
        words@.len() == rows@.len(),
        forall|i: int| 0 <= i < rows@.len() ==>
            (#[trigger] words@[i]).0@ == rows@[i].hiragana@ && words@[i].1@ == display_of(rows@[i]),
{
    let n = rows.len();
    let mut words: Vec<(String, String)> = Vec::new();
    let mut i: usize = 0;
    while i < n
        invariant
            i <= n,
            n == rows@.len(),
            words@.len() == i,
            forall|j: int| 0 <= j < i ==>
                (#[trigger] words@[j]).0@ == rows@[j].hiragana@ && words@[j].1@ == display_of(rows@[j]),
        decreases n - i,
    {
        let row = &rows[i];
        let display = match &row.kanji {
            Some(k) => k.clone(),
            None => row.hiragana.clone(),
        };
        words.push((row.hiragana.clone(), display));
        i = i + 1;
    }
    words
}

} // verus!
