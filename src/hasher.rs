//! Content hash store: the digest of each source file as last recorded,
//! used to decide which files changed since the previous build.
use vstd::prelude::*;
use crate::text::same_text;

verus! {

/// The lowercase hexadecimal MD5 digest of a byte sequence.
pub uninterp spec fn md5_hex(bytes: Seq<u8>) -> Seq<char>;

/// A lowercase hexadecimal digit.
pub open spec fn is_lower_hex(c: char) -> bool {
    ('0' <= c && c <= '9') || ('a' <= c && c <= 'f')
}

/// Relies on `md5::compute`, printed through the digest's `LowerHex` impl:
/// the text is a function of the bytes alone, two hex digits for each of
/// the digest's sixteen bytes (`{:02x}`).
#[verifier::external_body]
fn hash_u8(v: &[u8]) -> (r: String)
    ensures
        r@ == md5_hex(v@),
        r@.len() == 32,
        forall|i: int| 0 <= i < r@.len() ==> is_lower_hex(#[trigger] r@[i]),
{
    format!("{:x}", md5::compute(v))
}

/// The digest of a byte sequence.
pub fn digest(bytes: &[u8]) -> (r: String)
    ensures
        r@ == md5_hex(bytes@),
        r@.len() == 32,
        forall|i: int| 0 <= i < r@.len() ==> is_lower_hex(#[trigger] r@[i]),
{
    hash_u8(bytes)
}

/// Hashing the same content twice gives the same digest.
pub proof fn lemma_digest_deterministic(a: Seq<u8>, b: Seq<u8>)
    requires
        a == b,
    ensures
        md5_hex(a) == md5_hex(b),
{
}

/// A mapping from file path to the digest recorded for it.
/// Each path occurs in at most one entry.
#[derive(Debug)]
pub struct HashRecord {
    pub entries: Vec<(String, String)>,
}

/// Whether the paths of `entries` are pairwise distinct.
pub open spec fn unique_paths(entries: Seq<(String, String)>) -> bool {
    forall|i: int, j: int|
        0 <= i < entries.len() && 0 <= j < entries.len() && i != j ==> entries[i].0@
            != entries[j].0@
}

/// The mapping that a sequence of entries with distinct paths describes.
pub open spec fn entries_map(entries: Seq<(String, String)>) -> Map<Seq<char>, Seq<char>> {
    Map::new(
        |k: Seq<char>| exists|i: int| 0 <= i < entries.len() && entries[i].0@ == k,
        |k: Seq<char>|
            entries[choose|i: int| 0 <= i < entries.len() && entries[i].0@ == k].1@,
    )
}

impl View for HashRecord {
    type V = Map<Seq<char>, Seq<char>>;

    open spec fn view(&self) -> Map<Seq<char>, Seq<char>> {
        entries_map(self.entries@)
    }
}

proof fn lemma_entry_in_map(entries: Seq<(String, String)>, i: int)
    requires
        unique_paths(entries),
        0 <= i < entries.len(),
    ensures
        entries_map(entries).contains_key(entries[i].0@),
        entries_map(entries)[entries[i].0@] == entries[i].1@,
{
    let k = entries[i].0@;
    assert(entries_map(entries).contains_key(k));
    let j = choose|j: int| 0 <= j < entries.len() && entries[j].0@ == k;
    assert(j == i);
}

impl HashRecord {
    pub open spec fn wf(&self) -> bool {
        unique_paths(self.entries@)
    }

    /// A record with no entries.
    pub fn new() -> (r: HashRecord)
        ensures
            r.wf(),
            r@ == Map::<Seq<char>, Seq<char>>::empty(),
    {
        let r = HashRecord { entries: Vec::new() };
        assert(r@ =~= Map::<Seq<char>, Seq<char>>::empty());
        r
    }

    /// The position of the entry for `path`, if there is one.
    pub fn find(&self, path: &str) -> (r: Option<usize>)
        requires
            self.wf(),
        ensures
            r is Some <==> self@.contains_key(path@),
            r matches Some(i) ==> i < self.entries@.len() && self.entries@[i as int].0@ == path@,
    {
        let mut i: usize = 0;
        while i < self.entries.len()
            invariant
                i <= self.entries@.len(),
                forall|k: int| 0 <= k < i ==> self.entries@[k].0@ != path@,
            decreases self.entries.len() - i,
        {
            if same_text(self.entries[i].0.as_str(), path) {
                return Some(i);
            }
            i += 1;
        }
        None
    }

    /// Records `digest` for `path`, replacing any digest recorded before.
    pub fn insert(&mut self, path: &str, digest: &str)
        requires
            old(self).wf(),
        ensures
            final(self).wf(),
            final(self)@ == old(self)@.insert(path@, digest@),
    {
        let ghost before = self.entries@;
        let entry = (path.to_string(), digest.to_string());
        match self.find(path) {
            Some(i) => {
                self.entries.set(i, entry);
                proof {
                    let after = self.entries@;
                    assert(unique_paths(after));
                    assert forall|k: Seq<char>|
                        #[trigger] entries_map(after).contains_key(k) == entries_map(
                            before,
                        ).insert(path@, digest@).contains_key(k) by {
                        if entries_map(before).contains_key(k) {
                            let j = choose|j: int| 0 <= j < before.len() && before[j].0@ == k;
                            assert(after[j].0@ == k);
                        }
                        if entries_map(after).contains_key(k) {
                            let j = choose|j: int| 0 <= j < after.len() && after[j].0@ == k;
                            if j != i {
                                assert(before[j].0@ == k);
                            }
                        }
                        assert(after[i as int].0@ == path@);
                    }
                    assert forall|k: Seq<char>| #[trigger]
                        entries_map(after).contains_key(k) implies entries_map(after)[k]
                        == entries_map(before).insert(path@, digest@)[k] by {
                        let j = choose|j: int| 0 <= j < after.len() && after[j].0@ == k;
                        lemma_entry_in_map(after, j);
                        if j != i {
                            assert(before[j] == after[j]);
                            lemma_entry_in_map(before, j);
                        }
                    }
                    assert(entries_map(after) =~= entries_map(before).insert(path@, digest@));
                }
            },
            None => {
                self.entries.push(entry);
                proof {
                    let after = self.entries@;
                    let n = before.len() as int;
                    assert(unique_paths(after));
                    assert forall|k: Seq<char>|
                        #[trigger] entries_map(after).contains_key(k) == entries_map(
                            before,
                        ).insert(path@, digest@).contains_key(k) by {
                        if entries_map(before).contains_key(k) {
                            let j = choose|j: int| 0 <= j < before.len() && before[j].0@ == k;
                            assert(after[j].0@ == k);
                        }
                        if entries_map(after).contains_key(k) {
                            let j = choose|j: int| 0 <= j < after.len() && after[j].0@ == k;
                            if j != n {
                                assert(before[j].0@ == k);
                            }
                        }
                        assert(after[n].0@ == path@);
                    }
                    assert forall|k: Seq<char>| #[trigger]
                        entries_map(after).contains_key(k) implies entries_map(after)[k]
                        == entries_map(before).insert(path@, digest@)[k] by {
                        let j = choose|j: int| 0 <= j < after.len() && after[j].0@ == k;
                        lemma_entry_in_map(after, j);
                        if j != n {
                            assert(before[j] == after[j]);
                            lemma_entry_in_map(before, j);
                        }
                    }
                    assert(entries_map(after) =~= entries_map(before).insert(path@, digest@));
                }
            },
        }
    }
}

/// The digest recorded for `path`, if any.
pub fn get_hash(path: &str, path_hash: &HashRecord) -> (r: Option<String>)
    requires
        path_hash.wf(),
    ensures
        r is Some <==> path_hash@.contains_key(path@),
        r matches Some(h) ==> h@ == path_hash@[path@],
{
    match path_hash.find(path) {
        Some(i) => {
            proof {
                lemma_entry_in_map(path_hash.entries@, i as int);
            }
            Some(path_hash.entries[i].1.clone())
        },
        None => None,
    }
}

/// Whether a file whose current digest is `new_hash` counts as changed:
/// it has no entry, or its entry holds another digest.
pub fn is_digest_changed(path: &str, path_hash: &HashRecord, new_hash: &str) -> (r: bool)
    requires
        path_hash.wf(),
    ensures
        r == (!path_hash@.contains_key(path@) || path_hash@[path@] != new_hash@),
{
    match get_hash(path, path_hash) {
        None => true,
        Some(h) => !same_text(h.as_str(), new_hash),
    }
}

/// A file at `path` whose content is `contents` counts as changed under
/// `record`: it has no entry, or its entry holds another digest.
pub open spec fn changed(record: Map<Seq<char>, Seq<char>>, path: Seq<char>, contents: Seq<u8>) -> bool {
    !record.contains_key(path) || record[path] != md5_hex(contents)
}

/// Whether the file at `path`, whose content is `contents`, changed since
/// its digest was recorded.
pub fn is_file_changed(path: &str, path_hash: &HashRecord, contents: &[u8]) -> (r: bool)
    requires
        path_hash.wf(),
    ensures
        r == changed(path_hash@, path@, contents@),
{
    if get_hash(path, path_hash).is_none() {
        return true;
    }
    let new_hash = hash_u8(contents);
    is_digest_changed(path, path_hash, new_hash.as_str())
}

/// Records `new_hash` for `path` when the path has no entry or another
/// digest. Returns the digest it replaced, when there was one that differed.
pub fn store_digest(path: &str, path_hash: &mut HashRecord, new_hash: &str) -> (r: Option<String>)
    requires
        old(path_hash).wf(),
    ensures
        final(path_hash).wf(),
        final(path_hash)@ == old(path_hash)@.insert(path@, new_hash@),
        r is Some <==> (old(path_hash)@.contains_key(path@) && old(path_hash)@[path@]
            != new_hash@),
        r matches Some(h) ==> h@ == old(path_hash)@[path@],
{
    match get_hash(path, path_hash) {
        None => {
            path_hash.insert(path, new_hash);
            None
        },
        Some(h) => {
            if same_text(h.as_str(), new_hash) {
                assert(path_hash@.insert(path@, new_hash@) =~= path_hash@);
                None
            } else {
                path_hash.insert(path, new_hash);
                Some(h)
            }
        },
    }
}

/// Computes the digest of `contents`, the current content of the file at
/// `path`, and records it. Returns the digest it replaced, when there was
/// one that differed.
pub fn save_hash(path: &str, path_hash: &mut HashRecord, contents: &[u8]) -> (r: Option<String>)
    requires
        old(path_hash).wf(),
    ensures
        final(path_hash).wf(),
        final(path_hash)@ == old(path_hash)@.insert(path@, md5_hex(contents@)),
        r is Some <==> (old(path_hash)@.contains_key(path@) && old(path_hash)@[path@]
            != md5_hex(contents@)),
        r matches Some(h) ==> h@ == old(path_hash)@[path@],
{
    let new_hash = hash_u8(contents);
    store_digest(path, path_hash, new_hash.as_str())
}

/// A path with no entry counts as changed. Once the digest of some
/// content is saved for a path, that content counts as unchanged, and other
/// content counts as changed exactly where its digest differs.
pub proof fn lemma_change_detection(
    before: Map<Seq<char>, Seq<char>>,
    path: Seq<char>,
    saved: Seq<u8>,
    current: Seq<u8>,
)
    ensures
        !before.contains_key(path) ==> changed(before, path, current),
        !changed(before.insert(path, md5_hex(saved)), path, saved),
        changed(before.insert(path, md5_hex(saved)), path, current) == (md5_hex(saved)
            != md5_hex(current)),
{
}

} // verus!
