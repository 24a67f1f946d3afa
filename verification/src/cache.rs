//! The memo: what the search found, per content fingerprint, and its text form.

use crate::nbt::same_text;
use std::collections::BTreeMap;
use vstd::prelude::*;

verus! {

/// One remembered outcome.
#[derive(Debug)]
pub struct MemoEntry {
    pub fingerprint: String,
    pub found: bool,
}

/// Why the memo could not be read from, or written as, text.
#[derive(Debug, PartialEq, Eq, Clone, Copy)]
pub enum CacheError {
    /// The text is no object of fingerprints and booleans.
    Malformed,
    /// The encoder gave up.
    Unencodable,
}

/// The memo. No fingerprint is held twice.
#[derive(Debug)]
pub struct MemoCache {
    entries: Vec<MemoEntry>,
}

/// The fingerprints and outcomes of a list of entries, in order.
pub open spec fn entry_pairs(entries: Seq<MemoEntry>) -> Seq<(Seq<char>, bool)> {
    Seq::new(entries.len(), |i: int| (entries[i].fingerprint@, entries[i].found))
}

/// The mapping that a list of pairs builds up, each pair overwriting what an
/// earlier one said of the same fingerprint.
pub open spec fn pairs_map(pairs: Seq<(Seq<char>, bool)>) -> Map<Seq<char>, bool>
    decreases pairs.len(),
{
    if pairs.len() == 0 {
        Map::empty()
    } else {
        pairs_map(pairs.drop_last()).insert(pairs.last().0, pairs.last().1)
    }
}

/// No fingerprint stands in two pairs.
pub open spec fn distinct_keys(pairs: Seq<(Seq<char>, bool)>) -> bool {
    forall|i: int, j: int| 0 <= i < j < pairs.len() ==> pairs[i].0 != pairs[j].0
}

/// The pairs of the object that a JSON text holds, ordered by key, if the text
/// is an object whose values are booleans.
pub uninterp spec fn json_entries(text: Seq<char>) -> Option<Seq<(Seq<char>, bool)>>;

/// The JSON text of a mapping.
pub uninterp spec fn json_text(mapping: Map<Seq<char>, bool>) -> Seq<char>;

/// The mapping that a text restores: that of its pairs, if it has any.
pub open spec fn restored(text: Seq<char>) -> Option<Map<Seq<char>, bool>> {
    match json_entries(text) {
        Some(pairs) => Some(pairs_map(pairs)),
        None => None,
    }
}

#[verifier::external_type_specification]
#[verifier::external_body]
pub struct ExJsonError(serde_json::Error);

/// Calls `serde_json::from_str` for a `BTreeMap<String, bool>` and lists the
/// map's pairs in its order. Whether the text parses, and to which pairs,
/// depends on the text alone.
#[verifier::external_body]
fn parse_object(text: &str) -> (parsed: Result<Vec<MemoEntry>, serde_json::Error>)
    ensures
        match parsed {
            Ok(entries) => json_entries(text@) == Some(entry_pairs(entries@)),
            Err(_) => json_entries(text@) is None,
        },
{
    let map = serde_json::from_str::<BTreeMap<String, bool>>(text)?;
    Ok(map.into_iter().map(|(fingerprint, found)| MemoEntry { fingerprint, found }).collect())
}

/// Calls `serde_json::to_string` on a `BTreeMap` of the entries. The encoder
/// writes into a buffer in memory, with text for keys and booleans for values,
/// and nothing on that way can fail. The text depends on the mapping alone,
/// and `serde_json::from_str` reads the same mapping back from it.
#[verifier::external_body]
fn render_object(entries: &Vec<MemoEntry>) -> (rendered: Result<String, serde_json::Error>)
    requires
        distinct_keys(entry_pairs(entries@)),
    ensures
        rendered is Ok,
        rendered matches Ok(text) ==> text@ == json_text(pairs_map(entry_pairs(entries@)))
            && restored(text@) == Some(pairs_map(entry_pairs(entries@))),
{
    let pairs = entries.iter().map(|e| (e.fingerprint.as_str(), e.found));
    serde_json::to_string(&pairs.collect::<BTreeMap<&str, bool>>())
}

/// A fingerprint is in the mapping exactly if it stands in one of the pairs.
pub proof fn lemma_pairs_map_domain(pairs: Seq<(Seq<char>, bool)>, key: Seq<char>)
    ensures
        pairs_map(pairs).contains_key(key) <==> exists|i: int|
            0 <= i < pairs.len() && (#[trigger] pairs[i]).0 == key,
    decreases pairs.len(),
{
    if pairs.len() > 0 {
        let front = pairs.drop_last();
        lemma_pairs_map_domain(front, key);
        if pairs_map(pairs).contains_key(key) {
            if pairs.last().0 == key {
                assert(pairs[pairs.len() - 1].0 == key);
            } else {
                let i = choose|i: int| 0 <= i < front.len() && (#[trigger] front[i]).0 == key;
                assert(pairs[i].0 == key);
            }
        }
        if exists|i: int| 0 <= i < pairs.len() && (#[trigger] pairs[i]).0 == key {
            let i = choose|i: int| 0 <= i < pairs.len() && (#[trigger] pairs[i]).0 == key;
            if i < pairs.len() - 1 {
                assert(front[i].0 == key);
            }
        }
    }
}

/// Where no fingerprint stands twice, the mapping gives each fingerprint the
/// outcome of its pair.
pub proof fn lemma_pairs_map_value(pairs: Seq<(Seq<char>, bool)>, i: int)
    requires
        distinct_keys(pairs),
        0 <= i < pairs.len(),
    ensures
        pairs_map(pairs).contains_key(pairs[i].0),
        pairs_map(pairs)[pairs[i].0] == pairs[i].1,
    decreases pairs.len(),
{
    let front = pairs.drop_last();
    if i < pairs.len() - 1 {
        assert(distinct_keys(front)) by {
            assert forall|a: int, b: int| 0 <= a < b < front.len() implies front[a].0
                != front[b].0 by {
                assert(pairs[a].0 != pairs[b].0);
            }
        }
        lemma_pairs_map_value(front, i);
        assert(front[i] == pairs[i]);
        assert(pairs[i].0 != pairs[pairs.len() - 1].0);
    }
}

/// Where no fingerprint stands twice, a new outcome written over the pair of a
/// fingerprint is that outcome inserted into the mapping.
pub proof fn lemma_pairs_map_update(pairs: Seq<(Seq<char>, bool)>, i: int, found: bool)
    requires
        distinct_keys(pairs),
        0 <= i < pairs.len(),
    ensures
        distinct_keys(pairs.update(i, (pairs[i].0, found))),
        pairs_map(pairs.update(i, (pairs[i].0, found))) == pairs_map(pairs).insert(
            pairs[i].0,
            found,
        ),
{
    let key = pairs[i].0;
    let after = pairs.update(i, (key, found));
    assert(distinct_keys(after)) by {
        assert forall|a: int, b: int| 0 <= a < b < after.len() implies after[a].0
            != after[b].0 by {
            assert(pairs[a].0 != pairs[b].0);
        }
    }
    let left = pairs_map(after);
    let right = pairs_map(pairs).insert(key, found);
    assert forall|k: Seq<char>| left.contains_key(k) == right.contains_key(k) by {
        lemma_pairs_map_domain(after, k);
        lemma_pairs_map_domain(pairs, k);
        if left.contains_key(k) {
            let j = choose|j: int| 0 <= j < after.len() && (#[trigger] after[j]).0 == k;
            assert(pairs[j].0 == k);
        }
        if pairs_map(pairs).contains_key(k) {
            let j = choose|j: int| 0 <= j < pairs.len() && (#[trigger] pairs[j]).0 == k;
            assert(after[j].0 == k);
        }
        if k == key {
            assert(after[i].0 == k);
        }
    }
    assert forall|k: Seq<char>| left.contains_key(k) implies left[k] == right[k] by {
        lemma_pairs_map_domain(after, k);
        let j = choose|j: int| 0 <= j < after.len() && (#[trigger] after[j]).0 == k;
        lemma_pairs_map_value(after, j);
        if j != i {
            lemma_pairs_map_value(pairs, j);
            assert(pairs[j].0 != pairs[i].0);
        }
    }
    assert(left =~= right);
}

/// Where no fingerprint stands twice, the mapping has as many fingerprints as
/// there are pairs.
pub proof fn lemma_pairs_map_size(pairs: Seq<(Seq<char>, bool)>)
    requires
        distinct_keys(pairs),
    ensures
        pairs_map(pairs).dom().finite(),
        pairs_map(pairs).dom().len() == pairs.len(),
    decreases pairs.len(),
{
    if pairs.len() > 0 {
        let front = pairs.drop_last();
        assert(distinct_keys(front)) by {
            assert forall|a: int, b: int| 0 <= a < b < front.len() implies front[a].0
                != front[b].0 by {
                assert(pairs[a].0 != pairs[b].0);
            }
        }
        lemma_pairs_map_size(front);
        lemma_pairs_map_domain(front, pairs.last().0);
        if pairs_map(front).contains_key(pairs.last().0) {
            let i = choose|i: int| 0 <= i < front.len() && (#[trigger] front[i]).0 == pairs.last().0;
            assert(pairs[i].0 != pairs[pairs.len() - 1].0);
        }
    }
}

impl MemoCache {
    /// The mapping from fingerprints to outcomes.
    pub closed spec fn view(self) -> Map<Seq<char>, bool> {
        pairs_map(entry_pairs(self.entries@))
    }

    /// No fingerprint is held twice.
    pub closed spec fn wf(self) -> bool {
        distinct_keys(entry_pairs(self.entries@))
    }

    /// The number of entries held.
    pub closed spec fn count(self) -> nat {
        self.entries@.len()
    }

    /// A memo that remembers nothing.
    pub fn new() -> (cache: MemoCache)
        ensures
            cache.wf(),
            cache@ == Map::<Seq<char>, bool>::empty(),
            cache.count() == 0,
    {
        let cache = MemoCache { entries: Vec::new() };
        assert(entry_pairs(cache.entries@) =~= Seq::empty());
        cache
    }

    fn position(&self, fingerprint: &str) -> (at: Option<usize>)
        requires
            self.wf(),
        ensures
            match at {
                Some(i) => i < self.entries@.len() && self.entries@[i as int].fingerprint@
                    == fingerprint@ && self@.contains_key(fingerprint@) && self@[fingerprint@]
                    == self.entries@[i as int].found,
                None => !self@.contains_key(fingerprint@),
            },
    {
        let ghost pairs = entry_pairs(self.entries@);
        let mut i: usize = 0;
        while i < self.entries.len()
            invariant
                i <= self.entries.len(),
                self.wf(),
                pairs == entry_pairs(self.entries@),
                forall|j: int| 0 <= j < i ==> (#[trigger] pairs[j]).0 != fingerprint@,
            decreases self.entries.len() - i,
        {
            if same_text(self.entries[i].fingerprint.as_str(), fingerprint) {
                proof {
                    lemma_pairs_map_value(pairs, i as int);
                }
                return Some(i);
            }
            i += 1;
        }
        proof {
            lemma_pairs_map_domain(pairs, fingerprint@);
        }
        None
    }

    /// What is remembered of a fingerprint.
    pub fn lookup(&self, fingerprint: &str) -> (found: Option<bool>)
        requires
            self.wf(),
        ensures
            match found {
                Some(outcome) => self@.contains_key(fingerprint@) && self@[fingerprint@]
                    == outcome,
                None => !self@.contains_key(fingerprint@),
            },
    {
        match self.position(fingerprint) {
            Some(i) => Some(self.entries[i].found),
            None => None,
        }
    }

    /// Remembers an outcome, in place of what was remembered of the same
    /// fingerprint before.
    pub fn insert(&mut self, fingerprint: String, found: bool)
        requires
            old(self).wf(),
        ensures
            final(self).wf(),
            final(self)@ == old(self)@.insert(fingerprint@, found),
            final(self).count() == if old(self)@.contains_key(fingerprint@) {
                old(self).count()
            } else {
                old(self).count() + 1
            },
    {
        let ghost before = entry_pairs(self.entries@);
        match self.position(fingerprint.as_str()) {
            Some(i) => {
                self.entries.set(i, MemoEntry { fingerprint, found });
                proof {
                    lemma_pairs_map_update(before, i as int, found);
                    assert(entry_pairs(self.entries@) =~= before.update(
                        i as int,
                        (before[i as int].0, found),
                    ));
                }
            },
            None => {
                self.entries.push(MemoEntry { fingerprint, found });
                proof {
                    let after = entry_pairs(self.entries@);
                    assert(after.drop_last() =~= before);
                    assert(after.last() == (fingerprint@, found));
                    assert forall|a: int, b: int| 0 <= a < b < after.len() implies after[a].0
                        != after[b].0 by {
                        lemma_pairs_map_domain(before, fingerprint@);
                        if b < before.len() {
                            assert(before[a].0 != before[b].0);
                        } else {
                            assert(before[a].0 == after[a].0);
                        }
                    }
                }
            },
        }
    }

    /// The number of entries held.
    pub fn len(&self) -> (n: usize)
        ensures
            n == self.count(),
    {
        self.entries.len()
    }

    /// The memo holds one entry per fingerprint: as many entries as the
    /// mapping has fingerprints.
    pub proof fn lemma_one_entry_per_fingerprint(self)
        requires
            self.wf(),
        ensures
            self@.dom().finite(),
            self@.dom().len() == self.count(),
    {
        lemma_pairs_map_size(entry_pairs(self.entries@));
    }
}

/// Builds a memo from a list of entries, each entry overwriting what an
/// earlier one said of the same fingerprint.
pub fn memo_of_entries(entries: &Vec<MemoEntry>) -> (cache: MemoCache)
    ensures
        cache.wf(),
        cache@ == pairs_map(entry_pairs(entries@)),
{
    let ghost pairs = entry_pairs(entries@);
    let mut cache = MemoCache::new();
    let mut i: usize = 0;
    assert(pairs.take(0) =~= Seq::empty());
    while i < entries.len()
        invariant
            i <= entries.len(),
            pairs == entry_pairs(entries@),
            cache.wf(),
            cache@ == pairs_map(pairs.take(i as int)),
        decreases entries.len() - i,
    {
        let fingerprint = entries[i].fingerprint.clone();
        cache.insert(fingerprint, entries[i].found);
        proof {
            let now = pairs.take(i as int + 1);
            assert(now.drop_last() =~= pairs.take(i as int));
            assert(now.last() == pairs[i as int]);
        }
        i += 1;
    }
    assert(pairs.take(i as int) =~= pairs);
    cache
}

/// Reads a memo from its text. The text has to be a JSON object whose values
/// are booleans.
pub fn load_hash_dict(text: &str) -> (loaded: Result<MemoCache, CacheError>)
    ensures
        match loaded {
            Ok(cache) => cache.wf() && restored(text@) == Some(cache@),
            Err(error) => error == CacheError::Malformed && restored(text@) is None,
        },
{
    match parse_object(text) {
        Ok(entries) => Ok(memo_of_entries(&entries)),
        Err(_) => Err(CacheError::Malformed),
    }
}

/// Reads a memo from its text where there is a text and it can be read, and
/// starts an empty memo otherwise.
pub fn load_or_empty(text: Option<&str>) -> (cache: MemoCache)
    ensures
        cache.wf(),
        cache@ == match text {
            Some(t) => match restored(t@) {
                Some(mapping) => mapping,
                None => Map::empty(),
            },
            None => Map::empty(),
        },
{
    match text {
        Some(t) => match load_hash_dict(t) {
            Ok(cache) => cache,
            Err(_) => MemoCache::new(),
        },
        None => MemoCache::new(),
    }
}

/// Writes the whole memo as text, which never fails. The text depends on the
/// mapping alone, and reading it gives the mapping back.
pub fn save_hash_dict(cache: &MemoCache) -> (saved: Result<String, CacheError>)
    requires
        cache.wf(),
    ensures
        saved matches Ok(text) && text@ == json_text(cache@) && restored(text@) == Some(cache@),
{
    match render_object(&cache.entries) {
        Ok(text) => Ok(text),
        Err(_) => Err(CacheError::Unencodable),
    }
}

} // verus!
