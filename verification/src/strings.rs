//! Character-level string predicates, each proved against its view.

use vstd::prelude::*;

verus! {

/// `needle` occurs in `hay` starting at position `i`.
pub open spec fn matches_at(hay: Seq<char>, needle: Seq<char>, i: int) -> bool {
    0 <= i && i + needle.len() <= hay.len() && hay.subrange(i, i + needle.len()) == needle
}

/// `needle` occurs somewhere in `hay`.
pub open spec fn contains_seq(hay: Seq<char>, needle: Seq<char>) -> bool {
    exists|i: int| matches_at(hay, needle, i)
}

/// The views of a list of owned strings.
pub open spec fn views_of_strings(s: Seq<String>) -> Seq<Seq<char>> {
    Seq::new(s.len(), |i: int| s[i]@)
}

/// Index of the first occurrence of `c` in `s`, or -1.
pub open spec fn first_sep<T>(s: Seq<T>, c: T) -> int
    decreases s.len(),
{
    if s.len() == 0 {
        -1
    } else if s[0] == c {
        0
    } else {
        let r = first_sep(s.drop_first(), c);
        if r < 0 {
            -1
        } else {
            r + 1
        }
    }
}

/// The chunks of `s` between occurrences of `c`; empty chunks are kept.
pub open spec fn split_on<T>(s: Seq<T>, c: T) -> Seq<Seq<T>>
    decreases s.len(),
{
    let f = first_sep(s, c);
    if f < 0 || f >= s.len() {
        seq![s]
    } else {
        seq![s.take(f)] + split_on(s.skip(f + 1), c)
    }
}

/// `first_sep` is the scan that stops at the first hit.
pub proof fn lemma_first_sep_found<T>(t: Seq<T>, c: T, k: int)
    requires
        0 <= k <= t.len(),
        forall|j: int| 0 <= j < k ==> t[j] != c,
        k == t.len() || t[k] == c,
    ensures
        first_sep(t, c) == if k == t.len() {
            -1int
        } else {
            k
        },
    decreases k,
{
    if k == 0 {
        if t.len() == 0 {
        } else if t[0] == c {
        }
    } else {
        lemma_first_sep_found(t.drop_first(), c, k - 1);
    }
}

/// Split a string on a separator character, keeping empty chunks.
pub fn split_char(s: &str, sep: char) -> (r: Vec<String>)
    ensures
        views_of_strings(r@) == split_on(s@, sep),
{
    let len = s.unicode_len();
    let mut chunks: Vec<String> = Vec::new();
    let mut start: usize = 0;
    let mut i: usize = 0;
    proof {
        assert(s@.skip(0) =~= s@);
    }
    while i < len
        invariant
            len == s@.len(),
            0 <= start <= i <= len,
            forall|j: int| start <= j < i ==> s@[j] != sep,
            split_on(s@, sep) =~= views_of_strings(chunks@) + split_on(s@.skip(start as int), sep),
        decreases len - i,
    {
        if s.get_char(i) == sep {
            let chunk = String::from_str(s.substring_char(start, i));
            proof {
                let t = s@.skip(start as int);
                lemma_first_sep_found(t, sep, i - start);
                assert(t.take(i - start) =~= s@.subrange(start as int, i as int));
                assert(t.skip(i - start + 1) =~= s@.skip(i + 1));
                assert(split_on(t, sep) =~= seq![chunk@] + split_on(s@.skip(i + 1), sep));
                assert(views_of_strings(chunks@.push(chunk)) =~= views_of_strings(chunks@)
                    + seq![chunk@]);
            }
            chunks.push(chunk);
            start = i + 1;
        }
        i = i + 1;
    }
    let last_chunk = String::from_str(s.substring_char(start, len));
    proof {
        let t = s@.skip(start as int);
        lemma_first_sep_found(t, sep, len - start);
        assert(t =~= s@.subrange(start as int, len as int));
        assert(split_on(t, sep) =~= seq![last_chunk@]);
        assert(views_of_strings(chunks@.push(last_chunk)) =~= views_of_strings(chunks@)
            + seq![last_chunk@]);
    }
    chunks.push(last_chunk);
    chunks
}

/// Position of the first occurrence of `sep`, if there is one.
pub fn find_char(s: &str, sep: char) -> (r: Option<usize>)
    ensures
        match r {
            Some(i) => first_sep(s@, sep) == i as int,
            None => first_sep(s@, sep) == -1,
        },
{
    let len = s.unicode_len();
    let mut i: usize = 0;
    while i < len
        invariant
            len == s@.len(),
            i <= len,
            forall|j: int| 0 <= j < i ==> s@[j] != sep,
        decreases len - i,
    {
        if s.get_char(i) == sep {
            proof {
                lemma_first_sep_found(s@, sep, i as int);
            }
            return Some(i);
        }
        i = i + 1;
    }
    proof {
        lemma_first_sep_found(s@, sep, len as int);
    }
    None
}

/// A separator that occurs somewhere is found at a non-negative position.
pub proof fn lemma_first_sep_exists<T>(s: Seq<T>, c: T, i: int)
    requires
        0 <= i < s.len(),
        s[i] == c,
    ensures
        0 <= first_sep(s, c) < s.len(),
    decreases i,
{
    if s[0] == c {
    } else {
        lemma_first_sep_exists(s.drop_first(), c, i - 1);
    }
}

/// A split always yields at least one chunk.
pub proof fn lemma_split_nonempty<T>(s: Seq<T>, c: T)
    ensures
        split_on(s, c).len() >= 1,
    decreases s.len(),
{
    let f = first_sep(s, c);
    if !(f < 0 || f >= s.len()) {
        lemma_split_nonempty(s.skip(f + 1), c);
    }
}

/// Appending separator-free text extends the last chunk and nothing else.
pub proof fn lemma_split_append<T>(r: Seq<T>, bt: Seq<T>, sep: T)
    requires
        forall|i: int| 0 <= i < bt.len() ==> bt[i] != sep,
    ensures
        split_on(r + bt, sep) =~= split_on(r, sep).drop_last().push(
            split_on(r, sep).last() + bt,
        ),
    decreases r.len(),
{
    lemma_split_nonempty(r, sep);
    let f = first_sep(r, sep);
    if f < 0 || f >= r.len() {
        lemma_first_sep_bound(r, sep);
        assert(forall|i: int| 0 <= i < r.len() ==> r[i] != sep);
        lemma_first_sep_found(r + bt, sep, (r + bt).len() as int);
        assert(split_on(r, sep) =~= seq![r]);
        assert(split_on(r + bt, sep) =~= seq![r + bt]);
    } else {
        lemma_first_sep_is_first(r, sep);
        lemma_first_sep_found(r + bt, sep, f);
        assert((r + bt).take(f) =~= r.take(f));
        assert((r + bt).skip(f + 1) =~= r.skip(f + 1) + bt);
        lemma_split_append(r.skip(f + 1), bt, sep);
        lemma_split_nonempty(r.skip(f + 1), sep);
        assert(split_on(r + bt, sep) =~= seq![r.take(f)] + split_on(r.skip(f + 1) + bt, sep));
        assert((seq![r.take(f)] + split_on(r.skip(f + 1), sep)).last() == split_on(
            r.skip(f + 1),
            sep,
        ).last());
    }
}

/// Appending a separator and then separator-free text adds one chunk.
pub proof fn lemma_split_append_sep<T>(r: Seq<T>, w: Seq<T>, sep: T)
    requires
        forall|i: int| 0 <= i < w.len() ==> w[i] != sep,
    ensures
        split_on(r + seq![sep] + w, sep) =~= split_on(r, sep) + seq![w],
    decreases r.len(),
{
    let f = first_sep(r, sep);
    let t = r + seq![sep] + w;
    if f < 0 || f >= r.len() {
        lemma_first_sep_bound(r, sep);
        assert(forall|i: int| 0 <= i < r.len() ==> r[i] != sep);
        lemma_first_sep_found(t, sep, r.len() as int);
        assert(t.take(r.len() as int) =~= r);
        assert(t.skip(r.len() as int + 1) =~= w);
        lemma_first_sep_found(w, sep, w.len() as int);
        assert(split_on(w, sep) =~= seq![w]);
        assert(split_on(r, sep) =~= seq![r]);
    } else {
        lemma_first_sep_is_first(r, sep);
        lemma_first_sep_found(t, sep, f);
        assert(t.take(f) =~= r.take(f));
        assert(t.skip(f + 1) =~= r.skip(f + 1) + seq![sep] + w);
        lemma_split_append_sep(r.skip(f + 1), w, sep);
    }
}

/// Where `first_sep` reports a hit, it is the earliest one.
pub proof fn lemma_first_sep_is_first<T>(s: Seq<T>, c: T)
    requires
        0 <= first_sep(s, c) < s.len(),
    ensures
        s[first_sep(s, c)] == c,
        forall|j: int| 0 <= j < first_sep(s, c) ==> s[j] != c,
    decreases s.len(),
{
    if s.len() > 0 && s[0] != c {
        if 0 <= first_sep(s.drop_first(), c) < s.drop_first().len() {
            lemma_first_sep_is_first(s.drop_first(), c);
            assert forall|j: int| 0 <= j < first_sep(s, c) implies s[j] != c by {
                if j > 0 {
                    assert(s.drop_first()[j - 1] != c);
                }
            }
        }
    }
}

/// Where `first_sep` reports no hit, no position holds the separator.
pub proof fn lemma_first_sep_bound<T>(s: Seq<T>, c: T)
    requires
        first_sep(s, c) < 0 || first_sep(s, c) >= s.len(),
    ensures
        forall|i: int| 0 <= i < s.len() ==> s[i] != c,
{
    assert forall|i: int| 0 <= i < s.len() implies s[i] != c by {
        if s[i] == c {
            lemma_first_sep_exists(s, c, i);
        }
    }
}

/// Relies on `String::push` from std: appends exactly one character.
#[verifier::external_body]
pub(crate) fn push_char(s: &mut String, c: char)
    ensures
        final(s)@ == old(s)@.push(c),
{
    s.push(c);
}

/// Character-wise equality of two string slices.
pub fn str_eq(a: &str, b: &str) -> (r: bool)
    ensures
        r == (a@ == b@),
{
    let alen = a.unicode_len();
    let blen = b.unicode_len();
    if alen != blen {
        return false;
    }
    let mut i: usize = 0;
    while i < alen
        invariant
            i <= alen,
            alen == a@.len(),
            alen == b@.len(),
            forall|j: int| 0 <= j < i ==> a@[j] == b@[j],
        decreases alen - i,
    {
        if a.get_char(i) != b.get_char(i) {
            return false;
        }
        i = i + 1;
    }
    proof {
        assert(a@ =~= b@);
    }
    true
}

/// Does `hay` start with `needle`?
pub fn starts_with_str(hay: &str, needle: &str) -> (r: bool)
    ensures
        r == matches_at(hay@, needle@, 0),
{
    let hlen = hay.unicode_len();
    let nlen = needle.unicode_len();
    if nlen > hlen {
        return false;
    }
    let mut i: usize = 0;
    while i < nlen
        invariant
            i <= nlen,
            nlen <= hlen,
            hlen == hay@.len(),
            nlen == needle@.len(),
            forall|j: int| 0 <= j < i ==> hay@[j] == needle@[j],
        decreases nlen - i,
    {
        if hay.get_char(i) != needle.get_char(i) {
            proof {
                assert(hay@.subrange(0, needle@.len() as int)[i as int] != needle@[i as int]);
            }
            return false;
        }
        i = i + 1;
    }
    proof {
        assert(hay@.subrange(0, needle@.len() as int) =~= needle@);
    }
    true
}

/// Does `needle` occur in `hay` starting at `at`?
pub fn matches_at_exec(hay: &str, needle: &str, at: usize) -> (r: bool)
    requires
        at + needle@.len() <= hay@.len(),
    ensures
        r == matches_at(hay@, needle@, at as int),
{
    let hlen = hay.unicode_len();
    let nlen = needle.unicode_len();
    let mut i: usize = 0;
    while i < nlen
        invariant
            i <= nlen,
            hlen == hay@.len(),
            nlen == needle@.len(),
            at + nlen <= hlen,
            forall|j: int| 0 <= j < i ==> hay@[at + j] == needle@[j],
        decreases nlen - i,
    {
        if hay.get_char(at + i) != needle.get_char(i) {
            proof {
                assert(hay@.subrange(at as int, at + needle@.len())[i as int] != needle@[i as int]);
            }
            return false;
        }
        i = i + 1;
    }
    proof {
        assert(hay@.subrange(at as int, at + needle@.len()) =~= needle@);
    }
    true
}

/// Does `hay` end with `needle`?
pub fn ends_with_str(hay: &str, needle: &str) -> (r: bool)
    ensures
        r == (needle@.len() <= hay@.len() && matches_at(
            hay@,
            needle@,
            hay@.len() - needle@.len(),
        )),
{
    let hlen = hay.unicode_len();
    let nlen = needle.unicode_len();
    if nlen > hlen {
        return false;
    }
    matches_at_exec(hay, needle, hlen - nlen)
}

/// Does `needle` occur anywhere in `hay`?
pub fn contains_str(hay: &str, needle: &str) -> (r: bool)
    ensures
        r == contains_seq(hay@, needle@),
{
    let hlen = hay.unicode_len();
    let nlen = needle.unicode_len();
    if nlen > hlen {
        proof {
            assert(forall|i: int| !matches_at(hay@, needle@, i));
        }
        return false;
    }
    if nlen == 0 {
        proof {
            assert(hay@.subrange(0, 0) =~= needle@);
            assert(matches_at(hay@, needle@, 0));
        }
        return true;
    }
    let mut at: usize = 0;
    while at <= hlen - nlen
        invariant
            hlen == hay@.len(),
            nlen == needle@.len(),
            0 < nlen <= hlen,
            at <= hlen - nlen + 1,
            forall|j: int| 0 <= j < at ==> !matches_at(hay@, needle@, j),
        decreases hlen - nlen - at + 1,
    {
        if matches_at_exec(hay, needle, at) {
            return true;
        }
        at = at + 1;
    }
    proof {
        assert(forall|i: int| matches_at(hay@, needle@, i) ==> 0 <= i && i + nlen <= hlen);
    }
    false
}

} // verus!
