//! What text baking decides: the outline each kind of on-gate text gets, and
//! the cache that bakes each (text, kind) pair only once.

use vstd::prelude::*;

verus! {

/// Which on-gate role a string plays; selects fill colour and outline.
#[derive(Clone, Copy, Debug, PartialEq, Eq, Hash, Structural)]
pub enum TextKind {
    /// The question on the crossbeam: dark ink with a light outline.
    Question,
    /// The answer on a sign: dark ink, no outline.
    Answer,
}

/// Outline radius of question text in pixels: 5% of the 110-pixel raster
/// height, rounded.
pub const QUESTION_OUTLINE: usize = 6;

/// Outline radius, in pixels, of text of the given kind (zero: no outline).
pub open spec fn outline_of(kind: TextKind) -> usize {
    match kind {
        TextKind::Question => QUESTION_OUTLINE,
        TextKind::Answer => 0,
    }
}

/// The outline radius, in pixels, for text of the given kind.
pub fn outline_radius(kind: TextKind) -> (r: usize)
    ensures
        r == outline_of(kind),
{
    match kind {
        TextKind::Question => QUESTION_OUTLINE,
        TextKind::Answer => 0,
    }
}

/// The value cached for (`text`, `kind`) in `entries`, if any.
pub open spec fn lookup<V>(entries: Seq<(String, TextKind, V)>, text: Seq<char>, kind: TextKind) -> Option<V>
    decreases entries.len(),
{
    if entries.len() == 0 {
        None
    } else if entries.last().0@ == text && entries.last().1 == kind {
        Some(entries.last().2)
    } else {
        lookup(entries.drop_last(), text, kind)
    }
}

/// A cache miss means no entry holds the pair.
pub proof fn lemma_lookup_none<V>(entries: Seq<(String, TextKind, V)>, text: Seq<char>, kind: TextKind)
    requires
        lookup(entries, text, kind) is None,
    ensures
        forall|j: int| 0 <= j < entries.len() ==>
            !(#[trigger] entries[j].0@ == text && entries[j].1 == kind),
    decreases entries.len(),
{
    if entries.len() > 0 {
        let rest = entries.drop_last();
        lemma_lookup_none(rest, text, kind);
        assert forall|j: int| 0 <= j < entries.len() implies
            !(#[trigger] entries[j].0@ == text && entries[j].1 == kind) by {
            if j < entries.len() - 1 {
                assert(entries[j] == rest[j]);
            }
        }
    }
}

/// Appending an entry makes it the answer for its pair and leaves other pairs alone.
pub proof fn lemma_lookup_push<V>(entries: Seq<(String, TextKind, V)>, e: (String, TextKind, V), text: Seq<char>, kind: TextKind)
    ensures
        lookup(entries.push(e), text, kind)
            == if e.0@ == text && e.1 == kind { Some(e.2) } else { lookup(entries, text, kind) },
{
    assert(entries.push(e).drop_last() == entries);
}

/// Overwriting the entry of a pair held once makes the new value its answer
/// and leaves other pairs alone.
pub proof fn lemma_lookup_update<V>(entries: Seq<(String, TextKind, V)>, i: int, e: (String, TextKind, V), text: Seq<char>, kind: TextKind)
    requires
        0 <= i < entries.len(),
        entries[i].0@ == e.0@,
        entries[i].1 == e.1,
        forall|j: int| 0 <= j < entries.len() && j != i ==>
            !(#[trigger] entries[j].0@ == e.0@ && entries[j].1 == e.1),
    ensures
        lookup(entries.update(i, e), text, kind)
            == if e.0@ == text && e.1 == kind { Some(e.2) } else { lookup(entries, text, kind) },
    decreases entries.len(),
{
    let n = entries.len();
    let updated = entries.update(i, e);
    if i == n - 1 {
        assert(updated.drop_last() == entries.drop_last());
    } else {
        let rest = entries.drop_last();
        assert(updated.drop_last() == rest.update(i, e));
        assert forall|j: int| 0 <= j < rest.len() && j != i implies
            !(#[trigger] rest[j].0@ == e.0@ && rest[j].1 == e.1) by {
            assert(rest[j] == entries[j]);
        }
        lemma_lookup_update(rest, i, e, text, kind);
        assert(updated.last() == entries.last());
        assert(!(entries[n - 1].0@ == e.0@ && entries[n - 1].1 == e.1));
    }
}

/// Baked results by (text, kind), each pair held at most once.
pub struct BakeCache<V> {
    entries: Vec<(String, TextKind, V)>,
}

impl<V> BakeCache<V> {
    /// The cached entries, oldest first.
    pub closed spec fn entries(&self) -> Seq<(String, TextKind, V)> {
        self.entries@
    }

    /// The value cached for (`text`, `kind`), if any.
    pub open spec fn cached(&self, text: Seq<char>, kind: TextKind) -> Option<V> {
        lookup(self.entries(), text, kind)
    }

    /// No (text, kind) pair is held twice.
    pub open spec fn wf(&self) -> bool {
        forall|i: int, j: int| 0 <= i < j < self.entries().len() ==>
            !(#[trigger] self.entries()[i].0@ == #[trigger] self.entries()[j].0@
                && self.entries()[i].1 == self.entries()[j].1)
    }

    /// An empty cache.
    pub fn new() -> (c: Self)
        ensures
            c.wf(),
            c.entries().len() == 0,
            forall|t: Seq<char>, k: TextKind| #[trigger] c.cached(t, k) is None,
    {
        BakeCache { entries: Vec::new() }
    }

    /// How many (text, kind) pairs are cached.
    pub fn len(&self) -> (n: usize)
        ensures
            n == self.entries().len(),
    {
        self.entries.len()
    }

    fn find(&self, text: &String, kind: TextKind) -> (r: Option<usize>)
        ensures
            r matches Some(i) ==> i < self.entries().len()
                && self.entries()[i as int].0@ == text@ && self.entries()[i as int].1 == kind
                && self.cached(text@, kind) == Some(self.entries()[i as int].2),
            r is None ==> self.cached(text@, kind) is None,
    {
        let mut i: usize = self.entries.len();
        assert(self.entries@.take(i as int) == self.entries@);
        while i > 0
            invariant
                i <= self.entries@.len(),
                lookup(self.entries@, text@, kind) == lookup(self.entries@.take(i as int), text@, kind),
            decreases i,
        {
            let e = &self.entries[i - 1];
            assert(self.entries@.take(i as int).drop_last() == self.entries@.take(i - 1));
            if e.0 == *text && e.1 == kind {
                return Some(i - 1);
            }
            i = i - 1;
        }
        None
    }

    /// The value baked earlier for `text` as `kind`, if any.
    pub fn get(&self, text: &str, kind: TextKind) -> (r: Option<&V>)
        ensures
            r matches Some(v) ==> self.cached(text@, kind) == Some(*v),
            r is None ==> self.cached(text@, kind) is None,
    {
        let key = text.to_owned();
        match self.find(&key, kind) {
            Some(i) => Some(&self.entries[i].2),
            None => None,
        }
    }

    /// Caches `value` for `text` as `kind`, replacing what was cached for that
    /// pair; every other pair keeps its value.
    pub fn insert(&mut self, text: &str, kind: TextKind, value: V)
        requires
            old(self).wf(),
        ensures
            final(self).wf(),
            final(self).cached(text@, kind) == Some(value),
            forall|t: Seq<char>, k: TextKind| !(t == text@ && k == kind) ==>
                #[trigger] final(self).cached(t, k) == old(self).cached(t, k),
            final(self).entries().len() == old(self).entries().len()
                + (if old(self).cached(text@, kind) is None { 1int } else { 0int }),
    {
        let key = text.to_owned();
        let ghost prev = self.entries@;
        match self.find(&key, kind) {
            Some(i) => {
                let entry = (key, kind, value);
                let ghost e = entry;
                proof {
                    assert forall|j: int| 0 <= j < prev.len() && j != i implies
                        !(#[trigger] prev[j].0@ == e.0@ && prev[j].1 == e.1) by {
                        if j < i {
                            assert(!(prev[j].0@ == prev[i as int].0@ && prev[j].1 == prev[i as int].1));
                        } else {
                            assert(!(prev[i as int].0@ == prev[j].0@ && prev[i as int].1 == prev[j].1));
                        }
                    }
                }
                self.entries.set(i, entry);
                proof {
                    assert forall|t: Seq<char>, k: TextKind|
                        #[trigger] lookup(self.entries@, t, k)
                            == if e.0@ == t && e.1 == k { Some(e.2) } else { lookup(prev, t, k) } by {
                        lemma_lookup_update(prev, i as int, e, t, k);
                    }
                    assert(self.cached(text@, kind) == Some(value));
                    assert forall|a: int, b: int| 0 <= a < b < self.entries().len() implies
                        !(#[trigger] self.entries()[a].0@ == #[trigger] self.entries()[b].0@
                            && self.entries()[a].1 == self.entries()[b].1) by {
                        if a != i && b != i {
                            assert(self.entries()[a] == prev[a] && self.entries()[b] == prev[b]);
                        }
                    }
                }
            },
            None => {
                let entry = (key, kind, value);
                let ghost e = entry;
                proof {
                    lemma_lookup_none(prev, text@, kind);
                }
                self.entries.push(entry);
                proof {
                    assert forall|t: Seq<char>, k: TextKind|
                        #[trigger] lookup(self.entries@, t, k)
                            == if e.0@ == t && e.1 == k { Some(e.2) } else { lookup(prev, t, k) } by {
                        lemma_lookup_push(prev, e, t, k);
                    }
                    assert(self.cached(text@, kind) == Some(value));
                    assert forall|a: int, b: int| 0 <= a < b < self.entries().len() implies
                        !(#[trigger] self.entries()[a].0@ == #[trigger] self.entries()[b].0@
                            && self.entries()[a].1 == self.entries()[b].1) by {
                        if b == prev.len() {
                            assert(self.entries()[a] == prev[a]);
                        } else {
                            assert(self.entries()[a] == prev[a] && self.entries()[b] == prev[b]);
                        }
                    }
                }
            },
        }
    }
}

} // verus!
