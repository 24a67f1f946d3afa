//! One file's share of a scan: its fingerprint, the search, and the memo entry
//! that comes of them.

use crate::cache::MemoCache;
use crate::cache::MemoEntry;
use crate::fingerprint::calculate_file_hash;
use crate::fingerprint::fingerprint_of;
use crate::region::handle_region;
use crate::region::region_matches;
use vstd::prelude::*;
use vstd::string::StringSliceAdditionalSpecFns;

verus! {

/// The bytes `.mca`.
pub open spec fn region_suffix() -> Seq<u8> {
    seq![0x2eu8, 0x6du8, 0x63u8, 0x61u8]
}

/// A file name has the extension of a region file where it ends in `.mca` and
/// something stands in front of that.
pub open spec fn names_region_file(name: Seq<u8>) -> bool {
    name.len() > 4 && name.subrange(name.len() - 4, name.len() as int) == region_suffix()
}

/// Tells whether a file name, without its directories, has the extension of a
/// region file.
pub fn is_region_file_name(name: &str) -> (found: bool)
    ensures
        found == names_region_file(name.spec_bytes()),
{
    is_region_file_name_bytes(name.as_bytes())
}

/// Tells whether a file name, given as the bytes it is made of and without its
/// directories, has the extension of a region file.
pub fn is_region_file_name_bytes(bytes: &[u8]) -> (found: bool)
    ensures
        found == names_region_file(bytes@),
{
    let n = bytes.len();
    if n <= 4 {
        return false;
    }
    let found = bytes[n - 4] == 0x2e && bytes[n - 3] == 0x6d && bytes[n - 2] == 0x63 && bytes[n
        - 1] == 0x61;
    proof {
        let tail = bytes@.subrange(n - 4, n as int);
        assert(tail.len() == 4);
        assert(tail[0] == bytes@[n - 4] && tail[1] == bytes@[n - 3] && tail[2] == bytes@[n - 2]
            && tail[3] == bytes@[n - 1]);
        if found {
            assert(tail =~= region_suffix());
        }
    }
    found
}

/// The mapping after the outcomes of some files were recorded in it, one file
/// after the other.
pub open spec fn recorded(before: Map<Seq<char>, bool>, files: Seq<Seq<u8>>) -> Map<
    Seq<char>,
    bool,
>
    decreases files.len(),
{
    if files.len() == 0 {
        before
    } else {
        recorded(before, files.drop_last()).insert(
            fingerprint_of(files.last()),
            region_matches(files.last()),
        )
    }
}

/// Fingerprints a file and searches it.
pub fn scan_file(data: &[u8]) -> (entry: MemoEntry)
    ensures
        entry.fingerprint@ == fingerprint_of(data@),
        entry.found == region_matches(data@),
{
    let fingerprint = calculate_file_hash(data);
    let found = handle_region(data);
    MemoEntry { fingerprint, found }
}

/// Scans a file and records the outcome. What the memo held of the file's
/// fingerprint is not consulted: the file is searched again and the entry
/// written over.
pub fn record_file(cache: &mut MemoCache, data: &[u8])
    requires
        old(cache).wf(),
    ensures
        final(cache).wf(),
        final(cache)@ == old(cache)@.insert(fingerprint_of(data@), region_matches(data@)),
{
    let entry = scan_file(data);
    cache.insert(entry.fingerprint, entry.found);
}

/// The contents of some files, as sequences of bytes.
pub open spec fn contents(files: Seq<Vec<u8>>) -> Seq<Seq<u8>> {
    Seq::new(files.len(), |i: int| files[i]@)
}

/// Scans some files in order and records each outcome.
pub fn record_all(cache: &mut MemoCache, files: &Vec<Vec<u8>>)
    requires
        old(cache).wf(),
    ensures
        final(cache).wf(),
        final(cache)@ == recorded(old(cache)@, contents(files@)),
{
    let ghost all = contents(files@);
    let ghost before = cache@;
    let mut i: usize = 0;
    assert(all.take(0) =~= Seq::empty());
    while i < files.len()
        invariant
            i <= files.len(),
            all == contents(files@),
            cache.wf(),
            cache@ == recorded(before, all.take(i as int)),
        decreases files.len() - i,
    {
        record_file(cache, files[i].as_slice());
        proof {
            let now = all.take(i as int + 1);
            assert(now.drop_last() =~= all.take(i as int));
            assert(now.last() == files@[i as int]@);
        }
        i += 1;
    }
    assert(all.take(i as int) =~= all);
}

/// The outcome of a scan depends on the memo it started from and the bytes of
/// the files alone.
pub proof fn lemma_scan_deterministic(
    before: Map<Seq<char>, bool>,
    first_run: Seq<Seq<u8>>,
    second_run: Seq<Seq<u8>>,
)
    requires
        first_run == second_run,
    ensures
        recorded(before, first_run) == recorded(before, second_run),
{
}

/// No two of the files share a fingerprint and differ in what the search finds
/// in them.
pub open spec fn consistent(files: Seq<Seq<u8>>) -> bool {
    forall|i: int, j: int|
        0 <= i < files.len() && 0 <= j < files.len() && #[trigger] fingerprint_of(files[i])
            == #[trigger] fingerprint_of(files[j]) ==> region_matches(files[i]) == region_matches(
            files[j],
        )
}

/// Every file of either list stands in the other, however often and in
/// whatever order.
pub open spec fn same_files(a: Seq<Seq<u8>>, b: Seq<Seq<u8>>) -> bool {
    &&& forall|i: int| 0 <= i < a.len() ==> b.contains(#[trigger] a[i])
    &&& forall|j: int| 0 <= j < b.len() ==> a.contains(#[trigger] b[j])
}

/// True if one of the files has the fingerprint `key`.
pub open spec fn fingerprinted(files: Seq<Seq<u8>>, key: Seq<char>) -> bool {
    exists|i: int| 0 <= i < files.len() && #[trigger] fingerprint_of(files[i]) == key
}

/// After a scan the memo holds the fingerprints it held and those of the files,
/// and what it held of any other fingerprint is as it was.
pub proof fn lemma_recorded_keys(before: Map<Seq<char>, bool>, files: Seq<Seq<u8>>, key: Seq<char>)
    ensures
        recorded(before, files).contains_key(key) <==> before.contains_key(key) || fingerprinted(
            files,
            key,
        ),
        !fingerprinted(files, key) ==> recorded(before, files)[key] == before[key],
    decreases files.len(),
{
    if files.len() > 0 {
        let front = files.drop_last();
        lemma_recorded_keys(before, front, key);
        if fingerprinted(front, key) {
            let i = choose|i: int| 0 <= i < front.len() && #[trigger] fingerprint_of(front[i]) == key;
            assert(fingerprint_of(files[i]) == key);
        }
        if fingerprint_of(files.last()) == key {
            assert(fingerprint_of(files[files.len() - 1]) == key);
        }
        if fingerprinted(files, key) {
            let i = choose|i: int| 0 <= i < files.len() && #[trigger] fingerprint_of(files[i]) == key;
            if i < files.len() - 1 {
                assert(fingerprint_of(front[i]) == key);
            }
        }
    }
}

/// After a scan of consistent files the memo holds, under the fingerprint of
/// each, what the search finds in it.
pub proof fn lemma_recorded_outcome(before: Map<Seq<char>, bool>, files: Seq<Seq<u8>>, i: int)
    requires
        consistent(files),
        0 <= i < files.len(),
    ensures
        recorded(before, files).contains_key(fingerprint_of(files[i])),
        recorded(before, files)[fingerprint_of(files[i])] == region_matches(files[i]),
    decreases files.len(),
{
    let front = files.drop_last();
    let last = files.len() - 1;
    if fingerprint_of(files[last]) == fingerprint_of(files[i]) {
        assert(region_matches(files[last]) == region_matches(files[i]));
    } else {
        assert(consistent(front)) by {
            assert forall|a: int, b: int|
                0 <= a < front.len() && 0 <= b < front.len() && #[trigger] fingerprint_of(front[a])
                    == #[trigger] fingerprint_of(front[b]) implies region_matches(front[a])
                == region_matches(front[b]) by {
                assert(fingerprint_of(files[a]) == fingerprint_of(files[b]));
            }
        }
        lemma_recorded_outcome(before, front, i);
    }
}

/// The outcome of a scan does not depend on the order in which the files are
/// recorded, nor on how often each is: two runs over the same files end with
/// the same memo. This holds of files that are consistent.
pub proof fn lemma_scan_order_free(
    before: Map<Seq<char>, bool>,
    first_run: Seq<Seq<u8>>,
    second_run: Seq<Seq<u8>>,
)
    requires
        same_files(first_run, second_run),
        consistent(first_run),
    ensures
        recorded(before, first_run) == recorded(before, second_run),
{
    assert(consistent(second_run)) by {
        assert forall|a: int, b: int|
            0 <= a < second_run.len() && 0 <= b < second_run.len() && #[trigger] fingerprint_of(
                second_run[a],
            ) == #[trigger] fingerprint_of(second_run[b]) implies region_matches(second_run[a])
            == region_matches(second_run[b]) by {
            assert(first_run.contains(second_run[a]));
            assert(first_run.contains(second_run[b]));
            let x = choose|x: int| 0 <= x < first_run.len() && first_run[x] == second_run[a];
            let y = choose|y: int| 0 <= y < first_run.len() && first_run[y] == second_run[b];
            assert(fingerprint_of(first_run[x]) == fingerprint_of(first_run[y]));
        }
    }
    let left = recorded(before, first_run);
    let right = recorded(before, second_run);
    assert forall|key: Seq<char>| fingerprinted(first_run, key) == fingerprinted(
        second_run,
        key,
    ) by {
        if fingerprinted(first_run, key) {
            let i = choose|i: int|
                0 <= i < first_run.len() && #[trigger] fingerprint_of(first_run[i]) == key;
            assert(second_run.contains(first_run[i]));
            let j = choose|j: int| 0 <= j < second_run.len() && second_run[j] == first_run[i];
            assert(fingerprint_of(second_run[j]) == key);
        }
        if fingerprinted(second_run, key) {
            let j = choose|j: int|
                0 <= j < second_run.len() && #[trigger] fingerprint_of(second_run[j]) == key;
            assert(first_run.contains(second_run[j]));
            let i = choose|i: int| 0 <= i < first_run.len() && first_run[i] == second_run[j];
            assert(fingerprint_of(first_run[i]) == key);
        }
    }
    assert forall|key: Seq<char>| left.contains_key(key) == right.contains_key(key) by {
        lemma_recorded_keys(before, first_run, key);
        lemma_recorded_keys(before, second_run, key);
    }
    assert forall|key: Seq<char>| left.contains_key(key) implies left[key] == right[key] by {
        lemma_recorded_keys(before, first_run, key);
        lemma_recorded_keys(before, second_run, key);
        if fingerprinted(first_run, key) {
            let i = choose|i: int|
                0 <= i < first_run.len() && #[trigger] fingerprint_of(first_run[i]) == key;
            assert(second_run.contains(first_run[i]));
            let j = choose|j: int| 0 <= j < second_run.len() && second_run[j] == first_run[i];
            lemma_recorded_outcome(before, first_run, i);
            lemma_recorded_outcome(before, second_run, j);
        }
    }
    assert(left =~= right);
}

/// After a scan the memo holds, for every file scanned, its fingerprint.
pub proof fn lemma_scanned_files_are_recorded(
    before: Map<Seq<char>, bool>,
    files: Seq<Seq<u8>>,
    i: int,
)
    requires
        0 <= i < files.len(),
    ensures
        recorded(before, files).contains_key(fingerprint_of(files[i])),
    decreases files.len(),
{
    if i < files.len() - 1 {
        lemma_scanned_files_are_recorded(before, files.drop_last(), i);
    }
}

/// A second file with the bytes of the first adds nothing to the memo: both
/// write the same entry.
pub proof fn lemma_copy_adds_nothing(before: Map<Seq<char>, bool>, file: Seq<u8>)
    ensures
        recorded(before, seq![file, file]) == recorded(before, seq![file]),
{
    let twice = seq![file, file];
    let once = seq![file];
    assert(twice.drop_last() =~= once);
    assert(once.drop_last() =~= Seq::<Seq<u8>>::empty());
    assert(recorded(before, once.drop_last()) == before);
    assert(recorded(before, once) == before.insert(fingerprint_of(file), region_matches(file)));
    assert(recorded(before, twice) == recorded(before, once).insert(
        fingerprint_of(file),
        region_matches(file),
    ));
    assert(recorded(before, twice) =~= recorded(before, once));
}

} // verus!
