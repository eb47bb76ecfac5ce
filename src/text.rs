//! Small verified helpers over strings viewed as sequences of characters.
use vstd::prelude::*;
use vstd::string::StrSliceExecFns;

verus! {

/// Relies on `String::push`: appends one character at the end.
#[verifier::external_body]
pub(crate) fn push_char(s: &mut String, c: char)
    ensures
        final(s)@ == old(s)@.push(c),
{
    s.push(c)
}

/// The characters of `s`, in order.
pub fn chars_of(s: &str) -> (r: Vec<char>)
    ensures
        r@ == s@,
{
    let n = s.unicode_len();
    let mut r: Vec<char> = Vec::new();
    let mut i: usize = 0;
    while i < n
        invariant
            n == s@.len(),
            i <= n,
            r@ == s@.subrange(0, i as int),
        decreases n - i,
    {
        r.push(s.get_char(i));
        i += 1;
    }
    assert(r@ =~= s@);
    r
}

/// The string made of the characters `cs[from..to]`.
pub fn string_of(cs: &[char], from: usize, to: usize) -> (r: String)
    requires
        from <= to <= cs@.len(),
    ensures
        r@ == cs@.subrange(from as int, to as int),
{
    let mut r = String::new();
    let mut i: usize = from;
    while i < to
        invariant
            from <= i <= to <= cs@.len(),
            r@ == cs@.subrange(from as int, i as int),
        decreases to - i,
    {
        push_char(&mut r, cs[i]);
        assert(r@ =~= cs@.subrange(from as int, i + 1));
        i += 1;
    }
    r
}

/// Whether two strings hold the same characters.
pub fn same_text(a: &str, b: &str) -> (r: bool)
    ensures
        r == (a@ == b@),
{
    let x = chars_of(a);
    let y = chars_of(b);
    if x.len() != y.len() {
        return false;
    }
    let mut i: usize = 0;
    while i < x.len()
        invariant
            x@ == a@,
            y@ == b@,
            x@.len() == y@.len(),
            i <= x@.len(),
            forall|k: int| 0 <= k < i ==> x@[k] == y@[k],
        decreases x.len() - i,
    {
        if x[i] != y[i] {
            return false;
        }
        i += 1;
    }
    assert(a@ =~= b@);
    true
}


/// `needle` occurs in `hay` at position `i`.
pub open spec fn occurs_at(hay: Seq<char>, needle: Seq<char>, i: int) -> bool {
    0 <= i && i + needle.len() <= hay.len() && hay.subrange(i, i + needle.len()) == needle
}

/// `needle` occurs somewhere in `hay`.
pub open spec fn occurs_in(hay: Seq<char>, needle: Seq<char>) -> bool {
    exists|i: int| occurs_at(hay, needle, i)
}

fn matches_at(hay: &Vec<char>, needle: &Vec<char>, i: usize) -> (r: bool)
    requires
        i + needle@.len() <= hay@.len(),
    ensures
        r == occurs_at(hay@, needle@, i as int),
{
    let hl = hay.len();
    let mut k: usize = 0;
    while k < needle.len()
        invariant
            hl == hay@.len(),
            i + needle@.len() <= hay@.len(),
            k <= needle@.len(),
            forall|j: int| 0 <= j < k ==> hay@[i + j] == needle@[j],
        decreases needle.len() - k,
    {
        if hay[i + k] != needle[k] {
            assert(hay@.subrange(i as int, i + needle@.len())[k as int] != needle@[k as int]);
            return false;
        }
        k += 1;
    }
    assert(hay@.subrange(i as int, i + needle@.len()) =~= needle@);
    true
}

/// Whether `needle` occurs in `hay`.
pub fn contains_text(hay: &str, needle: &str) -> (r: bool)
    ensures
        r == occurs_in(hay@, needle@),
{
    let h = chars_of(hay);
    let n = chars_of(needle);
    if n.len() > h.len() {
        return false;
    }
    let last = h.len() - n.len();
    let mut i: usize = 0;
    loop
        invariant
            h@ == hay@,
            n@ == needle@,
            n@.len() <= h@.len(),
            last == h@.len() - n@.len(),
            i <= last,
            forall|j: int| 0 <= j < i ==> !occurs_at(hay@, needle@, j),
        decreases last - i,
    {
        if matches_at(&h, &n, i) {
            return true;
        }
        if i == last {
            return false;
        }
        i += 1;
    }
}

/// `tok` is one of the `-`-separated tokens of `s`.
pub open spec fn has_token(s: Seq<char>, tok: Seq<char>) -> bool {
    exists|i: int|
        #![trigger occurs_at(s, tok, i)]
        occurs_at(s, tok, i) && (i == 0 || s[i - 1] == '-') && (i + tok.len() == s.len() || s[i
            + tok.len()] == '-')
}

/// Whether `tok` is one of the `-`-separated tokens of `s`.
pub fn contains_token(s: &str, tok: &str) -> (r: bool)
    ensures
        r == has_token(s@, tok@),
{
    let h = chars_of(s);
    let n = chars_of(tok);
    if n.len() > h.len() {
        return false;
    }
    let last = h.len() - n.len();
    let mut i: usize = 0;
    loop
        invariant
            h@ == s@,
            n@ == tok@,
            n@.len() <= h@.len(),
            last == h@.len() - n@.len(),
            last + n@.len() <= usize::MAX,
            i <= last,
            forall|j: int|
                #![trigger occurs_at(s@, tok@, j)]
                0 <= j < i ==> !(occurs_at(s@, tok@, j) && (j == 0 || s@[j - 1] == '-') && (j
                    + tok@.len() == s@.len() || s@[j + tok@.len()] == '-')),
        decreases last - i,
    {
        if matches_at(&h, &n, i) && (i == 0 || h[i - 1] == '-') && (i + n.len() == h.len() || h[i
            + n.len()] == '-') {
            return true;
        }
        if i == last {
            return false;
        }
        i += 1;
    }
}

/// The part of `s` before its first `sep`, or all of `s` where it has none.
pub open spec fn first_token(s: Seq<char>, sep: char) -> Seq<char>
    decreases s.len(),
{
    if s.len() == 0 || s[0] == sep {
        Seq::empty()
    } else {
        seq![s[0]] + first_token(s.drop_first(), sep)
    }
}

pub proof fn lemma_first_token(s: Seq<char>, sep: char, k: int)
    requires
        0 <= k <= s.len(),
        forall|j: int| 0 <= j < k ==> s[j] != sep,
        k == s.len() || s[k] == sep,
    ensures
        first_token(s, sep) == s.subrange(0, k),
    decreases k,
{
    if k == 0 {
        assert(s.subrange(0, 0) =~= Seq::<char>::empty());
    } else {
        lemma_first_token(s.drop_first(), sep, k - 1);
        assert(s.subrange(0, k) =~= seq![s[0]] + s.drop_first().subrange(0, k - 1));
    }
}

/// The part of `s` before its first `sep`.
pub fn first_part(s: &str, sep: char) -> (r: String)
    ensures
        r@ == first_token(s@, sep),
{
    let h = chars_of(s);
    let mut k: usize = 0;
    while k < h.len() && h[k] != sep
        invariant
            h@ == s@,
            k <= h@.len(),
            forall|j: int| 0 <= j < k ==> h@[j] != sep,
        decreases h.len() - k,
    {
        k += 1;
    }
    proof {
        lemma_first_token(s@, sep, k as int);
    }
    string_of(h.as_slice(), 0, k)
}

/// The lowercase form of a text.
pub uninterp spec fn lower_of(s: Seq<char>) -> Seq<char>;

/// Relies on `str::to_lowercase`: the result depends on the characters
/// alone.
#[verifier::external_body]
pub(crate) fn lowercase(s: &str) -> (r: String)
    ensures
        r@ == lower_of(s@),
{
    s.to_lowercase()
}


/// `s` with each occurrence of the non-empty `pat` replaced by `rep`,
/// matches taken from left to right without overlap.
pub open spec fn replaced(s: Seq<char>, pat: Seq<char>, rep: Seq<char>) -> Seq<char>
    decreases s.len(),
{
    if s.len() == 0 {
        s
    } else if pat.len() > 0 && pat.len() <= s.len() && s.subrange(0, pat.len() as int) == pat {
        rep + replaced(s.subrange(pat.len() as int, s.len() as int), pat, rep)
    } else {
        seq![s[0]] + replaced(s.drop_first(), pat, rep)
    }
}

/// `s` with each occurrence of `pat` replaced by `rep`.
pub fn replace_text(s: &str, pat: &str, rep: &str) -> (r: String)
    requires
        pat@.len() > 0,
    ensures
        r@ == replaced(s@, pat@, rep@),
{
    let h = chars_of(s);
    let p = chars_of(pat);
    let n = h.len();
    let mut out = String::new();
    let mut i: usize = 0;
    assert(s@.subrange(0, n as int) =~= s@);
    while i < n
        invariant
            h@ == s@,
            p@ == pat@,
            p@.len() > 0,
            n == h@.len(),
            i <= n,
            replaced(s@, pat@, rep@) == out@ + replaced(s@.subrange(i as int, n as int), pat@, rep@),
        decreases n - i,
    {
        let ghost rest = s@.subrange(i as int, n as int);
        if p.len() <= n - i && matches_at(&h, &p, i) {
            proof {
                assert(rest.subrange(0, pat@.len() as int) =~= s@.subrange(i as int, i + pat@.len()));
                assert(rest.subrange(pat@.len() as int, rest.len() as int) =~= s@.subrange(
                    i + pat@.len(),
                    n as int,
                ));
            }
            out.append(rep);
            i = i + p.len();
            assert(replaced(s@, pat@, rep@) == out@ + replaced(s@.subrange(i as int, n as int), pat@, rep@));
        } else {
            proof {
                if pat@.len() <= rest.len() {
                    assert(rest.subrange(0, pat@.len() as int) =~= s@.subrange(i as int, i + pat@.len()));
                }
                assert(rest.drop_first() =~= s@.subrange(i + 1, n as int));
            }
            let ghost before = out@;
            push_char(&mut out, h[i]);
            i = i + 1;
            assert(out@ =~= before + seq![rest[0]]);
        }
    }
    assert(s@.subrange(n as int, n as int) =~= Seq::<char>::empty());
    out
}

/// What follows the first `sep` of `s`, or `None` where `s` has none.
pub open spec fn after_sep(s: Seq<char>, sep: char) -> Option<Seq<char>>
    decreases s.len(),
{
    if s.len() == 0 {
        None
    } else if s[0] == sep {
        Some(s.drop_first())
    } else {
        after_sep(s.drop_first(), sep)
    }
}

pub proof fn lemma_after_sep(s: Seq<char>, sep: char, k: int)
    requires
        0 <= k <= s.len(),
        forall|j: int| 0 <= j < k ==> s[j] != sep,
    ensures
        after_sep(s, sep) == after_sep(s.subrange(k, s.len() as int), sep),
    decreases k,
{
    if k > 0 {
        lemma_after_sep(s.drop_first(), sep, k - 1);
        assert(s.drop_first().subrange(k - 1, s.len() - 1) =~= s.subrange(k, s.len() as int));
    } else {
        assert(s.subrange(0, s.len() as int) =~= s);
    }
}

/// `s` without any occurrence of `c`.
pub open spec fn without(s: Seq<char>, c: char) -> Seq<char>
    decreases s.len(),
{
    if s.len() == 0 {
        s
    } else if s.last() == c {
        without(s.drop_last(), c)
    } else {
        without(s.drop_last(), c).push(s.last())
    }
}

/// `s` without any occurrence of `c`.
pub fn remove_char(s: &str, c: char) -> (r: String)
    ensures
        r@ == without(s@, c),
{
    let h = chars_of(s);
    let mut out = String::new();
    let mut i: usize = 0;
    assert(s@.subrange(0, 0) =~= Seq::<char>::empty());
    while i < h.len()
        invariant
            h@ == s@,
            i <= h@.len(),
            out@ == without(s@.subrange(0, i as int), c),
        decreases h.len() - i,
    {
        assert(s@.subrange(0, i + 1).drop_last() =~= s@.subrange(0, i as int));
        if h[i] != c {
            push_char(&mut out, h[i]);
        }
        i += 1;
    }
    assert(s@.subrange(0, h@.len() as int) =~= s@);
    out
}

/// `c` has Unicode's White_Space property.
pub open spec fn white_space(c: char) -> bool {
    let u = c as u32;
    (0x09 <= u <= 0x0D) || u == 0x20 || u == 0x85 || u == 0xA0 || u == 0x1680 || (0x2000 <= u
        <= 0x200A) || u == 0x2028 || u == 0x2029 || u == 0x202F || u == 0x205F || u == 0x3000
}

/// Whether `c` has Unicode's White_Space property.
pub fn is_white(c: char) -> (r: bool)
    ensures
        r == white_space(c),
{
    let u = c as u32;
    (0x09 <= u && u <= 0x0D) || u == 0x20 || u == 0x85 || u == 0xA0 || u == 0x1680 || (0x2000
        <= u && u <= 0x200A) || u == 0x2028 || u == 0x2029 || u == 0x202F || u == 0x205F || u
        == 0x3000
}

/// The white-space-separated fields of `s`, scanned from the left: the
/// fields closed so far, and the one being read.
pub open spec fn field_scan(s: Seq<char>) -> (Seq<Seq<char>>, Seq<char>)
    decreases s.len(),
{
    if s.len() == 0 {
        (Seq::empty(), Seq::empty())
    } else {
        let (done, cur) = field_scan(s.drop_last());
        if white_space(s.last()) {
            if cur.len() > 0 {
                (done.push(cur), Seq::empty())
            } else {
                (done, cur)
            }
        } else {
            (done, cur.push(s.last()))
        }
    }
}

/// The white-space-separated fields of `s`, in order.
pub open spec fn fields(s: Seq<char>) -> Seq<Seq<char>> {
    let (done, cur) = field_scan(s);
    if cur.len() > 0 {
        done.push(cur)
    } else {
        done
    }
}

/// The white-space-separated fields of `s`, in order.
pub fn split_fields(s: &str) -> (r: Vec<String>)
    ensures
        r@.map_values(|t: String| t@) == fields(s@),
{
    let h = chars_of(s);
    let mut done: Vec<String> = Vec::new();
    let mut cur = String::new();
    let mut i: usize = 0;
    assert(s@.subrange(0, 0) =~= Seq::<char>::empty());
    assert(done@.map_values(|t: String| t@) =~= Seq::<Seq<char>>::empty());
    while i < h.len()
        invariant
            h@ == s@,
            i <= h@.len(),
            (done@.map_values(|t: String| t@), cur@) == field_scan(s@.subrange(0, i as int)),
        decreases h.len() - i,
    {
        assert(s@.subrange(0, i + 1).drop_last() =~= s@.subrange(0, i as int));
        assert(s@.subrange(0, i + 1).last() == h@[i as int]);
        if is_white(h[i]) {
            if cur.as_str().unicode_len() > 0 {
                let ghost prev = done@;
                done.push(cur);
                cur = String::new();
                assert(done@.map_values(|t: String| t@) =~= prev.map_values(|t: String| t@).push(
                    done@.last()@,
                ));
            }
        } else {
            push_char(&mut cur, h[i]);
        }
        i += 1;
    }
    assert(s@.subrange(0, h@.len() as int) =~= s@);
    if cur.as_str().unicode_len() > 0 {
        let ghost prev = done@;
        done.push(cur);
        assert(done@.map_values(|t: String| t@) =~= prev.map_values(|t: String| t@).push(
            done@.last()@,
        ));
    }
    done
}


/// `s` ends with `suffix`.
pub open spec fn ends_with(s: Seq<char>, suffix: Seq<char>) -> bool {
    suffix.len() <= s.len() && s.subrange(s.len() - suffix.len(), s.len() as int) == suffix
}

/// Whether `s` ends with `suffix`.
pub fn has_suffix(s: &str, suffix: &str) -> (r: bool)
    ensures
        r == ends_with(s@, suffix@),
{
    let h = chars_of(s);
    let x = chars_of(suffix);
    if x.len() > h.len() {
        return false;
    }
    let start = h.len() - x.len();
    let r = matches_at(&h, &x, start);
    r
}


/// What follows the last `sep` of `s`, or `None` where `s` has none.
pub open spec fn after_last(s: Seq<char>, sep: char) -> Option<Seq<char>>
    decreases s.len(),
{
    if s.len() == 0 {
        None
    } else if s.last() == sep {
        Some(Seq::empty())
    } else {
        match after_last(s.drop_last(), sep) {
            None => None,
            Some(t) => Some(t.push(s.last())),
        }
    }
}

proof fn lemma_after_last_none(s: Seq<char>, sep: char)
    requires
        forall|j: int| 0 <= j < s.len() ==> s[j] != sep,
    ensures
        after_last(s, sep) is None,
    decreases s.len(),
{
    if s.len() > 0 {
        lemma_after_last_none(s.drop_last(), sep);
    }
}

proof fn lemma_after_last_at(s: Seq<char>, sep: char, k: int)
    requires
        0 <= k < s.len(),
        s[k] == sep,
        forall|j: int| k < j < s.len() ==> s[j] != sep,
    ensures
        after_last(s, sep) == Some(s.subrange(k + 1, s.len() as int)),
    decreases s.len(),
{
    if k == s.len() - 1 {
        assert(s.subrange(k + 1, s.len() as int) =~= Seq::<char>::empty());
    } else {
        lemma_after_last_at(s.drop_last(), sep, k);
        assert(s.drop_last().subrange(k + 1, s.len() - 1).push(s.last()) =~= s.subrange(
            k + 1,
            s.len() as int,
        ));
    }
}

/// What follows the last `sep` of `s`, where it has one.
pub fn after_final(s: &str, sep: char) -> (r: Option<String>)
    ensures
        r is Some <==> after_last(s@, sep) is Some,
        r matches Some(t) ==> t@ == after_last(s@, sep)->0,
{
    let h = chars_of(s);
    let mut k: usize = h.len();
    while k > 0 && h[k - 1] != sep
        invariant
            h@ == s@,
            k <= h@.len(),
            forall|j: int| k <= j < h@.len() ==> h@[j] != sep,
        decreases k,
    {
        k -= 1;
    }
    if k == 0 {
        proof {
            lemma_after_last_none(s@, sep);
        }
        None
    } else {
        proof {
            lemma_after_last_at(s@, sep, k - 1);
        }
        Some(string_of(h.as_slice(), k, h.len()))
    }
}

} // verus!
