use vstd::prelude::*;

use crate::tts::string_views;

verus! {

/// One key and its value.
#[derive(Debug)]
pub struct MapEntry {
    pub key: String,
    pub value: String,
}

/// A map from strings to strings.
#[derive(Debug)]
pub struct StringMap {
    entries: Vec<MapEntry>,
}

/// The map that a list of entries describes: a later entry for a key replaces an
/// earlier one.
pub open spec fn entries_map(es: Seq<MapEntry>) -> Map<Seq<char>, Seq<char>>
    decreases es.len(),
{
    if es.len() == 0 {
        Map::empty()
    } else {
        entries_map(es.drop_last()).insert(es.last().key@, es.last().value@)
    }
}

proof fn lemma_entries_map_tail(es: Seq<MapEntry>, i: int, key: Seq<char>)
    requires
        0 <= i <= es.len(),
        forall|j: int| i <= j < es.len() ==> (#[trigger] es[j]).key@ != key,
    ensures
        entries_map(es).contains_key(key) == entries_map(es.take(i)).contains_key(key),
        entries_map(es).contains_key(key) ==> entries_map(es)[key] == entries_map(es.take(i))[key],
    decreases es.len() - i,
{
    if i < es.len() {
        let d = es.drop_last();
        assert forall|j: int| i <= j < d.len() implies (#[trigger] d[j]).key@ != key by {
            assert(d[j] == es[j]);
        }
        lemma_entries_map_tail(d, i, key);
        assert(d.take(i) =~= es.take(i));
    } else {
        assert(es.take(i) =~= es);
    }
}

/// `key` is the key of some entry.
pub open spec fn has_key(es: Seq<MapEntry>, key: Seq<char>) -> bool {
    exists|j: int| 0 <= j < es.len() && (#[trigger] es[j]).key@ == key
}

proof fn lemma_entries_map_dom(es: Seq<MapEntry>, key: Seq<char>)
    ensures
        entries_map(es).contains_key(key) == has_key(es, key),
    decreases es.len(),
{
    if es.len() > 0 {
        let d = es.drop_last();
        lemma_entries_map_dom(d, key);
        if has_key(d, key) {
            let j = choose|j: int| 0 <= j < d.len() && (#[trigger] d[j]).key@ == key;
            assert(es[j] == d[j]);
        }
        if has_key(es, key) && es.last().key@ != key {
            let j = choose|j: int| 0 <= j < es.len() && (#[trigger] es[j]).key@ == key;
            assert(j < d.len());
            assert(d[j] == es[j]);
        }
    }
}

impl View for StringMap {
    type V = Map<Seq<char>, Seq<char>>;

    closed spec fn view(&self) -> Map<Seq<char>, Seq<char>> {
        entries_map(self.entries@)
    }
}

impl StringMap {
    /// The empty map.
    pub fn new() -> (c: StringMap)
        ensures
            c@ == Map::<Seq<char>, Seq<char>>::empty(),
    {
        StringMap { entries: Vec::new() }
    }

    /// Sets `key` to `value`, replacing any earlier value.
    pub fn insert(&mut self, key: String, value: String)
        ensures
            final(self)@ == old(self)@.insert(key@, value@),
    {
        self.entries.push(MapEntry { key, value });
        assert(self.entries@.drop_last() =~= old(self).entries@);
    }

    /// The value of `key`.
    pub fn get(&self, key: &str) -> (r: Option<&str>)
        ensures
            r matches Some(v) ==> self@.contains_key(key@) && v@ == self@[key@],
            r is None ==> !self@.contains_key(key@),
    {
        let k = String::from_str(key);
        let mut i = self.entries.len();
        while i > 0
            invariant
                i <= self.entries@.len(),
                k@ == key@,
                forall|j: int| i <= j < self.entries@.len() ==> (#[trigger] self.entries@[j]).key@
                    != key@,
            decreases i,
        {
            if self.entries[i - 1].key == k {
                proof {
                    let es = self.entries@;
                    lemma_entries_map_tail(es, i as int, key@);
                    assert(es.take(i as int).drop_last() =~= es.take(i - 1));
                }
                return Some(self.entries[i - 1].value.as_str());
            }
            i = i - 1;
        }
        proof {
            lemma_entries_map_tail(self.entries@, 0, key@);
            assert(self.entries@.take(0) =~= Seq::<MapEntry>::empty());
        }
        None
    }

    /// The keys, each once.
    pub fn keys(&self) -> (r: Vec<String>)
        ensures
            forall|k: Seq<char>| #[trigger] self@.contains_key(k) == string_views(r@).contains(k),
            string_views(r@).no_duplicates(),
    {
        let mut out: Vec<String> = Vec::new();
        let mut i: usize = 0;
        while i < self.entries.len()
            invariant
                i <= self.entries@.len(),
                forall|k: Seq<char>|
                    #[trigger] has_key(self.entries@.take(i as int), k) == string_views(
                        out@,
                    ).contains(k),
                string_views(out@).no_duplicates(),
            decreases self.entries.len() - i,
        {
            let key = &self.entries[i].key;
            let ghost es = self.entries@;
            let mut found = false;
            let mut j: usize = 0;
            while j < out.len()
                invariant
                    j <= out.len(),
                    found == exists|m: int| 0 <= m < j && out@[m]@ == key@,
                decreases out.len() - j,
            {
                if out[j] == *key {
                    found = true;
                }
                j = j + 1;
            }
            let ghost before = out@;
            if !found {
                out.push(key.clone());
            }
            proof {
                assert forall|k: Seq<char>| #[trigger]
                    has_key(es.take(i + 1), k) == string_views(out@).contains(k) by {
                    if has_key(es.take(i + 1), k) {
                        let m = choose|m: int|
                            0 <= m < es.take(i + 1).len() && (#[trigger] es.take(i + 1)[m]).key@
                                == k;
                        if m < i {
                            assert(es.take(i as int)[m] == es.take(i + 1)[m]);
                            assert(has_key(es.take(i as int), k));
                            assert(string_views(before).contains(k));
                            let w = choose|w: int|
                                0 <= w < string_views(before).len() && string_views(before)[w]
                                    == k;
                            assert(string_views(out@)[w] == k);
                        } else if found {
                            let w = choose|w: int| 0 <= w < j && out@[w]@ == key@;
                            assert(string_views(out@)[w] == k);
                        } else {
                            assert(string_views(out@)[out@.len() - 1] == k);
                        }
                    }
                    if string_views(out@).contains(k) {
                        let w = choose|w: int|
                            0 <= w < string_views(out@).len() && string_views(out@)[w] == k;
                        if w < before.len() {
                            assert(string_views(before)[w] == k);
                            assert(has_key(es.take(i as int), k));
                            let m = choose|m: int|
                                0 <= m < es.take(i as int).len() && (#[trigger] es.take(
                                    i as int,
                                )[m]).key@ == k;
                            assert(es.take(i + 1)[m] == es.take(i as int)[m]);
                        } else {
                            assert(es.take(i + 1)[i as int] == es[i as int]);
                        }
                    }
                }
                if !found {
                    assert forall|a: int, b: int|
                        0 <= a < string_views(out@).len() && 0 <= b < string_views(out@).len()
                            && a != b implies string_views(out@)[a] != string_views(out@)[b] by {
                        if a < before.len() && b < before.len() {
                            assert(string_views(out@)[a] == string_views(before)[a]);
                            assert(string_views(out@)[b] == string_views(before)[b]);
                        } else if a < before.len() {
                            assert(string_views(out@)[a] == out@[a]@);
                        } else {
                            assert(string_views(out@)[b] == out@[b]@);
                        }
                    }
                } else {
                    assert(string_views(out@) == string_views(before));
                }
            }
            i = i + 1;
        }
        proof {
            assert(self.entries@.take(i as int) =~= self.entries@);
            assert forall|k: Seq<char>| #[trigger] self@.contains_key(k) == string_views(
                out@,
            ).contains(k) by {
                lemma_entries_map_dom(self.entries@, k);
            }
        }
        out
    }

    /// `key` has a value.
    pub fn contains_key(&self, key: &str) -> (r: bool)
        ensures
            r == self@.contains_key(key@),
    {
        self.get(key).is_some()
    }
}

} // verus!
