//! The text form of a hash record: one `"<path> <digest>"` line per entry.
use vstd::prelude::*;
use vstd::string::StringExecFns;
use crate::hasher::{entries_map, unique_paths, HashRecord};
use crate::text::{after_sep, chars_of, first_token, lemma_after_sep, lemma_first_token, string_of};

verus! {

/// Why a stored hash record could not be read.
#[derive(Debug)]
pub enum HashStoreError {
    /// A non-empty line holds no space between a path and a digest.
    MalformedLine { line: String },
}

/// What one line of a store reads as: `None` where it is malformed,
/// `Some(None)` where it is empty, else the path (the part before the first
/// space) and the digest (the part after it, up to any next space). A
/// carriage return that ends the line is dropped.
pub open spec fn line_entry(l: Seq<char>) -> Option<Option<(Seq<char>, Seq<char>)>> {
    let l2 = if l.len() > 0 && l.last() == '\r' {
        l.drop_last()
    } else {
        l
    };
    if l2.len() == 0 {
        Some(None)
    } else {
        match after_sep(l2, ' ') {
            None => None,
            Some(rest) => Some(Some((first_token(l2, ' '), first_token(rest, ' ')))),
        }
    }
}

/// `m` with the entry of a line added, where it has one.
pub open spec fn add_line(m: Map<Seq<char>, Seq<char>>, l: Seq<char>) -> Option<Map<Seq<char>, Seq<char>>> {
    match line_entry(l) {
        None => None,
        Some(None) => Some(m),
        Some(Some((k, v))) => Some(m.insert(k, v)),
    }
}

/// A store text read from the left: the mapping of its complete lines and
/// the line being read, or `None` once a malformed line was met.
pub open spec fn store_scan(s: Seq<char>) -> Option<(Map<Seq<char>, Seq<char>>, Seq<char>)>
    decreases s.len(),
{
    if s.len() == 0 {
        Some((Map::empty(), Seq::empty()))
    } else {
        match store_scan(s.drop_last()) {
            None => None,
            Some((m, cur)) => if s.last() == '\n' {
                match add_line(m, cur) {
                    None => None,
                    Some(m2) => Some((m2, Seq::empty())),
                }
            } else {
                Some((m, cur.push(s.last())))
            },
        }
    }
}

/// The mapping that a store text holds, later lines overriding earlier
/// ones, or `None` where a line is malformed.
pub open spec fn parsed_store(s: Seq<char>) -> Option<Map<Seq<char>, Seq<char>>> {
    match store_scan(s) {
        None => None,
        Some((m, cur)) => add_line(m, cur),
    }
}

/// The line of one entry.
pub open spec fn entry_line(e: (String, String)) -> Seq<char> {
    e.0@ + " "@ + e.1@ + "\n"@
}

/// The text of a sequence of entries, one line each, in order.
pub open spec fn rendered(es: Seq<(String, String)>) -> Seq<char>
    decreases es.len(),
{
    if es.len() == 0 {
        Seq::empty()
    } else {
        rendered(es.drop_last()) + entry_line(es.last())
    }
}

/// The entry of the line `h[start..end]`.
fn read_line(h: &Vec<char>, start: usize, end: usize) -> (r: Option<Option<(String, String)>>)
    requires
        start <= end <= h@.len(),
    ensures
        r is None <==> line_entry(h@.subrange(start as int, end as int)) is None,
        r matches Some(None) ==> line_entry(h@.subrange(start as int, end as int)) == Some(
            None::<(Seq<char>, Seq<char>)>,
        ),
        r matches Some(Some((k, v))) ==> line_entry(h@.subrange(start as int, end as int))
            == Some(Some((k@, v@))),
{
    let ghost l = h@.subrange(start as int, end as int);
    let end2 = if end > start && h[end - 1] == '\r' {
        end - 1
    } else {
        end
    };
    let ghost l2 = h@.subrange(start as int, end2 as int);
    assert(l2 == (if l.len() > 0 && l.last() == '\r' { l.drop_last() } else { l }));
    if end2 == start {
        return Some(None);
    }
    let mut j: usize = start;
    while j < end2 && h[j] != ' '
        invariant
            start <= j <= end2 <= h@.len(),
            forall|q: int| start <= q < j ==> h@[q] != ' ',
        decreases end2 - j,
    {
        j += 1;
    }
    proof {
        lemma_after_sep(l2, ' ', j - start);
        assert(l2.subrange(j - start, l2.len() as int) =~= h@.subrange(j as int, end2 as int));
    }
    if j == end2 {
        assert(h@.subrange(j as int, end2 as int) =~= Seq::<char>::empty());
        return None;
    }
    let ghost rest = h@.subrange(j + 1, end2 as int);
    assert(h@.subrange(j as int, end2 as int).drop_first() =~= rest);
    let mut k: usize = j + 1;
    while k < end2 && h[k] != ' '
        invariant
            j + 1 <= k <= end2 <= h@.len(),
            forall|q: int| j + 1 <= q < k ==> h@[q] != ' ',
        decreases end2 - k,
    {
        k += 1;
    }
    proof {
        lemma_first_token(l2, ' ', j - start);
        assert(l2.subrange(0, j - start) =~= h@.subrange(start as int, j as int));
        lemma_first_token(rest, ' ', k - j - 1);
        assert(rest.subrange(0, k - j - 1) =~= h@.subrange(j + 1, k as int));
    }
    let key = string_of(h.as_slice(), start, j);
    let value = string_of(h.as_slice(), j + 1, k);
    Some(Some((key, value)))
}

/// Reads the text of a stored hash record. Empty lines are skipped; where
/// two lines hold the same path, the later one counts.
pub fn parse_hash_store(contents: &str) -> (r: Result<HashRecord, HashStoreError>)
    ensures
        r is Ok <==> parsed_store(contents@) is Some,
        r matches Ok(rec) ==> rec.wf() && rec@ == parsed_store(contents@)->0,
{
    let h = chars_of(contents);
    let mut rec = HashRecord::new();
    let mut start: usize = 0;
    let mut i: usize = 0;
    assert(contents@.subrange(0, 0) =~= Seq::<char>::empty());
    while i < h.len()
        invariant
            h@ == contents@,
            start <= i <= h@.len(),
            rec.wf(),
            store_scan(contents@.subrange(0, i as int)) == Some(
                (rec@, h@.subrange(start as int, i as int)),
            ),
        decreases h.len() - i,
    {
        let ghost pre = contents@.subrange(0, i as int);
        assert(contents@.subrange(0, i + 1).drop_last() =~= pre);
        assert(contents@.subrange(0, i + 1).last() == h@[i as int]);
        if h[i] == '\n' {
            match read_line(&h, start, i) {
                None => {
                    proof {
                        lemma_scan_fails(contents@, i as int + 1);
                    }
                    return Err(
                        HashStoreError::MalformedLine { line: string_of(h.as_slice(), start, i) },
                    );
                },
                Some(None) => {},
                Some(Some((k, v))) => {
                    rec.insert(k.as_str(), v.as_str());
                },
            }
            start = i + 1;
            i += 1;
            assert(h@.subrange(start as int, i as int) =~= Seq::<char>::empty());
        } else {
            assert(h@.subrange(start as int, i + 1) =~= h@.subrange(start as int, i as int).push(
                h@[i as int],
            ));
            i += 1;
        }
    }
    assert(contents@.subrange(0, h@.len() as int) =~= contents@);
    match read_line(&h, start, h.len()) {
        None => Err(HashStoreError::MalformedLine { line: string_of(h.as_slice(), start, h.len()) }),
        Some(None) => Ok(rec),
        Some(Some((k, v))) => {
            rec.insert(k.as_str(), v.as_str());
            Ok(rec)
        },
    }
}

proof fn lemma_scan_fails(s: Seq<char>, i: int)
    requires
        0 <= i <= s.len(),
        store_scan(s.subrange(0, i)) is None,
    ensures
        parsed_store(s) is None,
    decreases s.len() - i,
{
    if i < s.len() {
        assert(s.subrange(0, i + 1).drop_last() =~= s.subrange(0, i));
        lemma_scan_fails(s, i + 1);
    } else {
        assert(s.subrange(0, i) =~= s);
    }
}

/// The text of a hash record: one `"<path> <digest>"` line per entry.
pub fn render_hash_store(record: &HashRecord) -> (r: String)
    ensures
        r@ == rendered(record.entries@),
{
    let mut out = String::new();
    let mut i: usize = 0;
    assert(record.entries@.subrange(0, 0) =~= Seq::<(String, String)>::empty());
    while i < record.entries.len()
        invariant
            i <= record.entries@.len(),
            out@ == rendered(record.entries@.subrange(0, i as int)),
        decreases record.entries.len() - i,
    {
        let ghost es = record.entries@.subrange(0, i + 1);
        assert(es.drop_last() =~= record.entries@.subrange(0, i as int));
        assert(es.last() == record.entries@[i as int]);
        out.append(record.entries[i].0.as_str());
        out.append(" ");
        out.append(record.entries[i].1.as_str());
        out.append("\n");
        i += 1;
    }
    assert(record.entries@.subrange(0, record.entries@.len() as int) =~= record.entries@);
    out
}


/// `s` holds no space, newline or carriage return.
pub open spec fn plain_text(s: Seq<char>) -> bool {
    forall|i: int| 0 <= i < s.len() ==> s[i] != ' ' && s[i] != '\n' && s[i] != '\r'
}

/// The mapping built by inserting the entries of `es` in order.
pub open spec fn entries_fold(es: Seq<(String, String)>) -> Map<Seq<char>, Seq<char>>
    decreases es.len(),
{
    if es.len() == 0 {
        Map::empty()
    } else {
        entries_fold(es.drop_last()).insert(es.last().0@, es.last().1@)
    }
}

proof fn lemma_scan_plain(a: Seq<char>, t: Seq<char>, m: Map<Seq<char>, Seq<char>>, c: Seq<char>)
    requires
        store_scan(a) == Some((m, c)),
        forall|i: int| 0 <= i < t.len() ==> t[i] != '\n',
    ensures
        store_scan(a + t) == Some((m, c + t)),
    decreases t.len(),
{
    if t.len() == 0 {
        assert(a + t =~= a);
        assert(c + t =~= c);
    } else {
        lemma_scan_plain(a, t.drop_last(), m, c);
        assert((a + t).drop_last() =~= a + t.drop_last());
        assert((a + t).last() == t.last());
        assert((c + t.drop_last()).push(t.last()) =~= c + t);
    }
}

proof fn lemma_line_entry(k: Seq<char>, v: Seq<char>)
    requires
        plain_text(k),
        plain_text(v),
    ensures
        line_entry(k + " "@ + v) == Some(Some((k, v))),
{
    reveal_strlit(" ");
    let l = k + " "@ + v;
    assert(l[k.len() as int] == ' ');
    assert(l.len() > 0);
    if v.len() > 0 {
        assert(l.last() == v.last());
    }
    assert forall|j: int| 0 <= j < k.len() implies l[j] != ' ' by {
        assert(l[j] == k[j]);
    }
    lemma_after_sep(l, ' ', k.len() as int);
    let tail = l.subrange(k.len() as int, l.len() as int);
    assert(tail.drop_first() =~= v);
    lemma_first_token(l, ' ', k.len() as int);
    assert(l.subrange(0, k.len() as int) =~= k);
    lemma_first_token(v, ' ', v.len() as int);
    assert(v.subrange(0, v.len() as int) =~= v);
}

proof fn lemma_render_scan(es: Seq<(String, String)>)
    requires
        forall|i: int| 0 <= i < es.len() ==> plain_text(#[trigger] es[i].0@) && plain_text(es[i].1@),
    ensures
        store_scan(rendered(es)) == Some((entries_fold(es), Seq::<char>::empty())),
    decreases es.len(),
{
    reveal_strlit(" ");
    reveal_strlit("\n");
    if es.len() == 0 {
    } else {
        let init = es.drop_last();
        assert forall|i: int| 0 <= i < init.len() implies plain_text(#[trigger] init[i].0@) && plain_text(init[i].1@) by {
            assert(init[i] == es[i]);
        }
        lemma_render_scan(init);
        let e = es.last();
        assert(plain_text(e.0@) && plain_text(e.1@));
        let t = e.0@ + " "@ + e.1@;
        let r0 = rendered(init);
        assert forall|i: int| 0 <= i < t.len() implies t[i] != '\n' by {
            if i < e.0@.len() {
                assert(t[i] == e.0@[i]);
            } else if i > e.0@.len() {
                assert(t[i] == e.1@[i - e.0@.len() - 1]);
            }
        }
        lemma_scan_plain(r0, t, entries_fold(init), Seq::empty());
        assert(Seq::<char>::empty() + t =~= t);
        assert(rendered(es) =~= (r0 + t).push('\n'));
        assert((r0 + t).push('\n').drop_last() =~= r0 + t);
        lemma_line_entry(e.0@, e.1@);
    }
}

proof fn lemma_fold_is_map(es: Seq<(String, String)>)
    requires
        unique_paths(es),
    ensures
        entries_fold(es) == entries_map(es),
    decreases es.len(),
{
    if es.len() == 0 {
        assert(entries_map(es) =~= Map::<Seq<char>, Seq<char>>::empty());
    } else {
        let init = es.drop_last();
        let n = init.len() as int;
        assert(unique_paths(init)) by {
            assert forall|i: int, j: int|
                0 <= i < init.len() && 0 <= j < init.len() && i != j implies init[i].0@
                != init[j].0@ by {
                assert(init[i] == es[i] && init[j] == es[j]);
            }
        }
        lemma_fold_is_map(init);
        let e = es.last();
        assert forall|k: Seq<char>|
            #[trigger] entries_map(es).contains_key(k) == entries_map(init).insert(
                e.0@,
                e.1@,
            ).contains_key(k) by {
            if entries_map(init).contains_key(k) {
                let j = choose|j: int| 0 <= j < init.len() && init[j].0@ == k;
                assert(es[j] == init[j]);
            }
            if entries_map(es).contains_key(k) {
                let j = choose|j: int| 0 <= j < es.len() && es[j].0@ == k;
                if j != n {
                    assert(es[j] == init[j]);
                }
            }
            assert(es[n] == e);
        }
        assert forall|k: Seq<char>| #[trigger]
            entries_map(es).contains_key(k) implies entries_map(es)[k] == entries_map(
            init,
        ).insert(e.0@, e.1@)[k] by {
            let j = choose|j: int| 0 <= j < es.len() && es[j].0@ == k;
            assert(es[j].0@ == k);
            let j2 = choose|j2: int| 0 <= j2 < es.len() && es[j2].0@ == k;
            assert(j2 == j);
            if j != n {
                assert(es[j] == init[j]);
                assert(entries_map(init).contains_key(k));
                let j3 = choose|j3: int| 0 <= j3 < init.len() && init[j3].0@ == k;
                assert(init[j3] == es[j3]);
                assert(j3 == j);
            }
        }
        assert(entries_map(es) =~= entries_map(init).insert(e.0@, e.1@));
    }
}

/// Reading back the text of a record gives the record's mapping, where no
/// path or digest holds a space, newline or carriage return.
pub proof fn lemma_store_round_trip(record: HashRecord)
    requires
        record.wf(),
        forall|i: int|
            0 <= i < record.entries@.len() ==> plain_text(#[trigger] record.entries@[i].0@)
                && plain_text(record.entries@[i].1@),
    ensures
        parsed_store(rendered(record.entries@)) == Some(record@),
{
    lemma_render_scan(record.entries@);
    lemma_fold_is_map(record.entries@);
}

} // verus!
