//! Compiled accessor paths into a JSON-like tree: `user.name`,
//! `items[0].price`, `items[*].price`, `user.*`.

use vstd::prelude::*;

use crate::json::{
    json_view, json_view_fields, json_view_seq, lemma_json_view_fields, lemma_json_view_seq,
    obj_lookup, JsonValue, SpecJson,
};
use crate::strings::{find_char, first_sep, split_char, split_on, str_eq, views_of_strings};

verus! {

/// Decimal digit, by code point.
pub open spec fn is_digit(c: char) -> bool {
    48 <= c as u32 <= 57
}

pub open spec fn all_digits(s: Seq<char>) -> bool {
    forall|i: int| 0 <= i < s.len() ==> is_digit(#[trigger] s[i])
}

/// Value of a decimal digit string.
pub open spec fn digits_val(s: Seq<char>) -> int
    decreases s.len(),
{
    if s.len() == 0 {
        0
    } else {
        digits_val(s.drop_last()) * 10 + (s.last() as u32 - 48)
    }
}

/// How an array index between brackets reads: a non-empty digit string whose
/// value fits in `usize`; anything else is rejected.
pub open spec fn spec_parse_index(p: Seq<char>) -> Option<int> {
    if p.len() > 0 && all_digits(p) && digits_val(p) <= usize::MAX {
        Some(digits_val(p))
    } else {
        None
    }
}

/// Mathematical model of one path segment.
pub enum SpecSegment {
    Field(Seq<char>),
    Wildcard,
    ArrayIndex(int),
    ArrayWildcard,
}

/// One step of a compiled field path.
#[derive(Debug)]
pub enum PathSegment {
    /// Descend into the named object field.
    Field(String),
    /// Fan out over every value of an object.
    Wildcard,
    /// Descend into one array element.
    ArrayIndex(usize),
    /// Fan out over every element of an array.
    ArrayWildcard,
}

impl View for PathSegment {
    type V = SpecSegment;

    open spec fn view(&self) -> SpecSegment {
        match self {
            PathSegment::Field(name) => SpecSegment::Field(name@),
            PathSegment::Wildcard => SpecSegment::Wildcard,
            PathSegment::ArrayIndex(n) => SpecSegment::ArrayIndex(*n as int),
            PathSegment::ArrayWildcard => SpecSegment::ArrayWildcard,
        }
    }
}

/// An ordered list of segments, applied left to right.
#[derive(Debug)]
pub struct FieldPath {
    pub segments: Vec<PathSegment>,
}

impl View for FieldPath {
    type V = Seq<SpecSegment>;

    open spec fn view(&self) -> Seq<SpecSegment> {
        Seq::new(self.segments@.len(), |i: int| self.segments@[i]@)
    }
}

/// The values one segment selects out of one value.
pub open spec fn seg_step(seg: SpecSegment, v: SpecJson) -> Seq<SpecJson> {
    match (seg, v) {
        (SpecSegment::Field(name), SpecJson::Obj(fields)) => match obj_lookup(fields, name) {
            Some(x) => seq![x],
            None => Seq::empty(),
        },
        (SpecSegment::Wildcard, SpecJson::Obj(fields)) => Seq::new(
            fields.len(),
            |i: int| fields[i].1,
        ),
        (SpecSegment::ArrayIndex(n), SpecJson::Arr(els)) => if 0 <= n < els.len() {
            seq![els[n]]
        } else {
            Seq::empty()
        },
        (SpecSegment::ArrayWildcard, SpecJson::Arr(els)) => els,
        _ => Seq::empty(),
    }
}

/// One segment applied to a list of candidate values, in order.
pub open spec fn step_list(seg: SpecSegment, vs: Seq<SpecJson>) -> Seq<SpecJson>
    decreases vs.len(),
{
    if vs.len() == 0 {
        Seq::empty()
    } else {
        step_list(seg, vs.drop_last()) + seg_step(seg, vs.last())
    }
}

/// A whole path applied to a list of candidate values.
pub open spec fn extract_list(segs: Seq<SpecSegment>, vs: Seq<SpecJson>) -> Seq<SpecJson>
    decreases segs.len(),
{
    if segs.len() == 0 {
        vs
    } else {
        step_list(segs.last(), extract_list(segs.drop_last(), vs))
    }
}

/// What `extract` returns: nothing, the single match, or the matches as an array.
pub open spec fn spec_extract(segs: Seq<SpecSegment>, v: SpecJson) -> Option<SpecJson> {
    let l = extract_list(segs, seq![v]);
    if l.len() == 0 {
        None
    } else if l.len() == 1 {
        Some(l[0])
    } else {
        Some(SpecJson::Arr(l))
    }
}

/// The views of a list of segments.
pub open spec fn views_of_segs(s: Seq<PathSegment>) -> Seq<SpecSegment> {
    Seq::new(s.len(), |i: int| s[i]@)
}

/// The views of a list of borrowed values.
pub open spec fn views_of_refs(s: Seq<&JsonValue>) -> Seq<SpecJson> {
    Seq::new(s.len(), |i: int| json_view(*s[i]))
}

/// One segment applied to one borrowed value; matches go onto `out`.
fn seg_step_exec<'a>(seg: &PathSegment, v: &'a JsonValue, out: &mut Vec<&'a JsonValue>)
    ensures
        views_of_refs(final(out)@) =~= views_of_refs(old(out)@) + seg_step(seg@, v@),
{
    match (seg, v) {
        (PathSegment::Field(name), JsonValue::Obj(_)) => {
            match v.get(name.as_str()) {
                Some(x) => {
                    out.push(x);
                    proof {
                        assert(seg_step(seg@, v@) =~= seq![x@]);
                    }
                }
                None => {
                    proof {
                        assert(seg_step(seg@, v@) =~= Seq::<SpecJson>::empty());
                    }
                }
            }
        }
        (PathSegment::Wildcard, JsonValue::Obj(fields)) => {
            proof {
                lemma_json_view_fields(fields@);
            }
            let ghost base = out@;
            let mut i: usize = 0;
            while i < fields.len()
                invariant
                    *v == JsonValue::Obj(*fields),
                    i <= fields.len(),
                    out@.len() == base.len() + i,
                    out@.subrange(0, base.len() as int) =~= base,
                    forall|j: int| 0 <= j < i ==> out@[base.len() + j] == &fields@[j].1,
                    json_view_fields(fields@).len() == fields@.len(),
                    forall|j: int| 0 <= j < fields@.len() ==> json_view_fields(fields@)[j] == (
                        fields@[j].0@,
                        json_view(fields@[j].1),
                    ),
                decreases fields.len() - i,
            {
                out.push(&fields[i].1);
                i = i + 1;
            }
        }
        (PathSegment::ArrayIndex(n), JsonValue::Arr(els)) => {
            proof {
                lemma_json_view_seq(els@);
            }
            if *n < els.len() {
                out.push(&els[*n]);
                proof {
                    assert(seg_step(seg@, v@) =~= seq![json_view(els@[*n as int])]);
                }
            } else {
                proof {
                    assert(seg_step(seg@, v@) =~= Seq::<SpecJson>::empty());
                }
            }
        }
        (PathSegment::ArrayWildcard, JsonValue::Arr(els)) => {
            proof {
                lemma_json_view_seq(els@);
            }
            let ghost base = out@;
            let mut i: usize = 0;
            while i < els.len()
                invariant
                    *v == JsonValue::Arr(*els),
                    i <= els.len(),
                    out@.len() == base.len() + i,
                    out@.subrange(0, base.len() as int) =~= base,
                    forall|j: int| 0 <= j < i ==> out@[base.len() + j] == &els@[j],
                    json_view_seq(els@).len() == els@.len(),
                    forall|j: int| 0 <= j < els@.len() ==> json_view_seq(els@)[j] == json_view(
                        els@[j],
                    ),
                decreases els.len() - i,
            {
                out.push(&els[i]);
                i = i + 1;
            }
        }
        _ => {
            proof {
                assert(seg_step(seg@, v@) =~= Seq::<SpecJson>::empty());
            }
        }
    }
}

/// How one bracket-delimited part of a chunk reads.
pub open spec fn spec_parse_part(p: Seq<char>) -> Seq<SpecSegment> {
    if p.len() == 0 {
        Seq::empty()
    } else if p == seq!['*', ']'] {
        seq![SpecSegment::ArrayWildcard]
    } else if p.last() == ']' {
        match spec_parse_index(p.drop_last()) {
            Some(n) => seq![SpecSegment::ArrayIndex(n)],
            None => Seq::empty(),
        }
    } else {
        seq![SpecSegment::Field(p)]
    }
}

/// All bracket parts of one chunk, in order.
pub open spec fn parts_segments(ps: Seq<Seq<char>>) -> Seq<SpecSegment>
    decreases ps.len(),
{
    if ps.len() == 0 {
        Seq::empty()
    } else {
        parts_segments(ps.drop_last()) + spec_parse_part(ps.last())
    }
}

/// How one dot-delimited chunk reads.
pub open spec fn spec_parse_chunk(c: Seq<char>) -> Seq<SpecSegment> {
    if first_sep(c, '[') >= 0 {
        parts_segments(split_on(c, '['))
    } else if c == seq!['*'] {
        seq![SpecSegment::Wildcard]
    } else {
        seq![SpecSegment::Field(c)]
    }
}

/// All dot-delimited chunks, in order.
pub open spec fn chunks_segments(cs: Seq<Seq<char>>) -> Seq<SpecSegment>
    decreases cs.len(),
{
    if cs.len() == 0 {
        Seq::empty()
    } else {
        chunks_segments(cs.drop_last()) + spec_parse_chunk(cs.last())
    }
}

/// How a whole path string reads.
pub open spec fn spec_parse_path(s: Seq<char>) -> Seq<SpecSegment> {
    chunks_segments(split_on(s, '.'))
}

/// A digit string reads as a non-negative value.
proof fn lemma_digits_val_nonneg(s: Seq<char>)
    requires
        all_digits(s),
    ensures
        digits_val(s) >= 0,
    decreases s.len(),
{
    if s.len() > 0 {
        assert(all_digits(s.drop_last())) by {
            assert(forall|j: int| 0 <= j < s.len() - 1 ==> s.drop_last()[j] == s[j]);
        }
        lemma_digits_val_nonneg(s.drop_last());
    }
}

/// With every character a digit, a prefix reads as at most the whole.
proof fn lemma_digits_val_bounds(s: Seq<char>, i: int)
    requires
        all_digits(s),
        0 <= i <= s.len(),
    ensures
        0 <= digits_val(s.take(i)) <= digits_val(s),
    decreases s.len(),
{
    if i == s.len() {
        assert(s.take(i) =~= s);
        lemma_digits_val_nonneg(s);
    } else {
        assert(all_digits(s.drop_last())) by {
            assert(forall|j: int| 0 <= j < s.len() - 1 ==> s.drop_last()[j] == s[j]);
        }
        assert(s.drop_last().take(i) =~= s.take(i));
        lemma_digits_val_bounds(s.drop_last(), i);
        lemma_digits_val_nonneg(s.drop_last());
    }
}

/// Parse a decimal array index; rejects empty, non-digit, and oversized input.
fn parse_index(p: &str) -> (r: Option<usize>)
    ensures
        match r {
            Some(n) => spec_parse_index(p@) == Some(n as int),
            None => spec_parse_index(p@) is None,
        },
{
    let len = p.unicode_len();
    if len == 0 {
        return None;
    }
    let mut acc: usize = 0;
    let mut i: usize = 0;
    while i < len
        invariant
            len == p@.len(),
            i <= len,
            forall|j: int| 0 <= j < i ==> is_digit(#[trigger] p@[j]),
            acc == digits_val(p@.take(i as int)),
        decreases len - i,
    {
        let c = p.get_char(i);
        let cv = c as u32;
        if cv < 48 || cv > 57 {
            return None;
        }
        let d = (cv - 48) as usize;
        proof {
            assert(p@.take(i + 1).drop_last() =~= p@.take(i as int));
            assert(p@.take(i + 1).last() == p@[i as int]);
        }
        acc = match acc.checked_mul(10) {
            Some(v) => match v.checked_add(d) {
                Some(v2) => v2,
                None => {
                    proof {
                        if all_digits(p@) {
                            lemma_digits_val_bounds(p@, i + 1);
                        }
                    }
                    return None;
                }
            },
            None => {
                proof {
                    if all_digits(p@) {
                        lemma_digits_val_bounds(p@, i + 1);
                        assert(digits_val(p@.take(i + 1)) > usize::MAX);
                    }
                }
                return None;
            }
        };
        i = i + 1;
    }
    proof {
        assert(p@.take(len as int) =~= p@);
    }
    Some(acc)
}

impl PathSegment {
    /// Copy; derived `Clone` would say nothing of the result in contracts.
    pub fn deep_copy(&self) -> (r: PathSegment)
        ensures
            r@ == self@,
    {
        match self {
            PathSegment::Field(name) => PathSegment::Field(name.clone()),
            PathSegment::Wildcard => PathSegment::Wildcard,
            PathSegment::ArrayIndex(n) => PathSegment::ArrayIndex(*n),
            PathSegment::ArrayWildcard => PathSegment::ArrayWildcard,
        }
    }
}

impl FieldPath {
    /// Copy the compiled path, segment by segment.
    pub fn deep_copy(&self) -> (r: FieldPath)
        ensures
            r@ == self@,
    {
        let mut segments: Vec<PathSegment> = Vec::new();
        let mut i: usize = 0;
        while i < self.segments.len()
            invariant
                i <= self.segments.len(),
                segments@.len() == i,
                forall|j: int| 0 <= j < i ==> segments@[j]@ == self.segments@[j]@,
            decreases self.segments.len() - i,
        {
            let seg = self.segments[i].deep_copy();
            segments.push(seg);
            i = i + 1;
        }
        let r = FieldPath { segments };
        proof {
            assert(r@ =~= self@);
        }
        r
    }

    /// Compile a path string: chunks split on `.`, bracket suffixes split on
    /// `[`, `*` as a wildcard; a malformed bracket part is dropped. Never fails.
    pub fn from_str(path: &str) -> (r: Result<FieldPath, String>)
        ensures
            match r {
                Ok(p) => p@ == spec_parse_path(path@),
                Err(_) => false,
            },
    {
        let chunks = split_char(path, '.');
        let mut segments: Vec<PathSegment> = Vec::new();
        let ghost cviews = views_of_strings(chunks@);
        let mut k: usize = 0;
        while k < chunks.len()
            invariant
                k <= chunks.len(),
                cviews == views_of_strings(chunks@),
                cviews.len() == chunks@.len(),
                forall|j: int| 0 <= j < chunks@.len() ==> cviews[j] == chunks@[j]@,
                views_of_segs(segments@) =~= chunks_segments(cviews.take(k as int)),
            decreases chunks.len() - k,
        {
            let chunk = &chunks[k];
            proof {
                assert(cviews.take(k + 1).drop_last() =~= cviews.take(k as int));
                assert(cviews.take(k + 1).last() == chunk@);
            }
            match find_char(chunk.as_str(), '[') {
                Some(_) => {
                    let parts = split_char(chunk.as_str(), '[');
                    let ghost pviews = views_of_strings(parts@);
                    let mut j: usize = 0;
                    while j < parts.len()
                        invariant
                            j <= parts.len(),
                            pviews == views_of_strings(parts@),
                            pviews.len() == parts@.len(),
                            forall|l: int| 0 <= l < parts@.len() ==> pviews[l] == parts@[l]@,
                            views_of_segs(segments@) =~= chunks_segments(cviews.take(k as int))
                                + parts_segments(pviews.take(j as int)),
                        decreases parts.len() - j,
                    {
                        let part = &parts[j];
                        let ghost segs_before = segments@;
                        proof {
                            assert(pviews.take(j + 1).drop_last() =~= pviews.take(j as int));
                            assert(pviews.take(j + 1).last() == part@);
                            assert(parts_segments(pviews.take(j + 1)) == parts_segments(
                                pviews.take(j as int),
                            ) + spec_parse_part(part@));
                            reveal_strlit("*]");
                            assert("*]"@ =~= seq!['*', ']']);
                        }
                        let plen = part.as_str().unicode_len();
                        if plen == 0 {
                            proof {
                                assert(spec_parse_part(part@) =~= Seq::<SpecSegment>::empty());
                            }
                        } else if str_eq(part.as_str(), "*]") {
                            segments.push(PathSegment::ArrayWildcard);
                        } else if part.as_str().get_char(plen - 1) == ']' {
                            let body = part.as_str().substring_char(0, plen - 1);
                            proof {
                                assert(body@ =~= part@.drop_last());
                            }
                            match parse_index(body) {
                                Some(n) => {
                                    segments.push(PathSegment::ArrayIndex(n));
                                }
                                None => {
                                    proof {
                                        assert(spec_parse_part(part@)
                                            =~= Seq::<SpecSegment>::empty());
                                    }
                                }
                            }
                        } else {
                            segments.push(PathSegment::Field(part.clone()));
                        }
                        proof {
                            if segments@.len() == segs_before.len() {
                                assert(views_of_segs(segments@) =~= views_of_segs(segs_before));
                            } else {
                                assert(views_of_segs(segments@) =~= views_of_segs(segs_before)
                                    + seq![segments@.last()@]);
                            }
                            assert(views_of_segs(segments@) =~= chunks_segments(
                                cviews.take(k as int),
                            ) + parts_segments(pviews.take(j + 1)));
                        }
                        j = j + 1;
                    }
                    proof {
                        assert(pviews.take(pviews.len() as int) =~= pviews);
                        assert(first_sep(chunk@, '[') >= 0);
                    }
                }
                None => {
                    proof {
                        reveal_strlit("*");
                        assert("*"@ =~= seq!['*']);
                    }
                    if str_eq(chunk.as_str(), "*") {
                        segments.push(PathSegment::Wildcard);
                    } else {
                        segments.push(PathSegment::Field(chunk.clone()));
                    }
                }
            }
            proof {
                assert(views_of_segs(segments@) =~= chunks_segments(cviews.take(k + 1)));
            }
            k = k + 1;
        }
        proof {
            assert(cviews.take(cviews.len() as int) =~= cviews);
        }
        let p = FieldPath { segments };
        proof {
            assert(p@ =~= views_of_segs(p.segments@));
        }
        Ok(p)
    }

    /// Borrowed extraction: every value the path selects, in document order.
    pub fn extract_refs<'a>(&self, value: &'a JsonValue) -> (r: Vec<&'a JsonValue>)
        ensures
            views_of_refs(r@) == extract_list(self@, seq![value@]),
    {
        let mut current: Vec<&'a JsonValue> = Vec::new();
        current.push(value);
        proof {
            assert(views_of_refs(current@) =~= seq![value@]);
        }
        let mut k: usize = 0;
        while k < self.segments.len()
            invariant
                k <= self.segments.len(),
                self@.len() == self.segments@.len(),
                forall|j: int| 0 <= j < self.segments@.len() ==> self@[j] == self.segments@[j]@,
                views_of_refs(current@) =~= extract_list(self@.take(k as int), seq![value@]),
            decreases self.segments.len() - k,
        {
            let mut next: Vec<&'a JsonValue> = Vec::new();
            let mut i: usize = 0;
            while i < current.len()
                invariant
                    i <= current.len(),
                    k < self.segments.len(),
                    views_of_refs(next@) =~= step_list(
                        self.segments@[k as int]@,
                        views_of_refs(current@).take(i as int),
                    ),
                decreases current.len() - i,
            {
                let ghost pre = next@;
                seg_step_exec(&self.segments[k], current[i], &mut next);
                proof {
                    let seg = self.segments@[k as int]@;
                    let cv = views_of_refs(current@);
                    assert(cv.take(i + 1).drop_last() =~= cv.take(i as int));
                    assert(cv.take(i + 1).last() == cv[i as int]);
                    assert(views_of_refs(next@) =~= step_list(seg, cv.take(i + 1)));
                }
                i = i + 1;
            }
            proof {
                let seg = self.segments@[k as int]@;
                let cv = views_of_refs(current@);
                assert(cv.take(cv.len() as int) =~= cv);
                assert(self@.take(k + 1).drop_last() =~= self@.take(k as int));
                assert(self@.take(k + 1).last() == seg);
                assert(views_of_refs(next@) =~= extract_list(self@.take(k + 1), seq![value@]));
            }
            current = next;
            k = k + 1;
        }
        proof {
            assert(self@.take(self@.len() as int) =~= self@);
        }
        current
    }

    /// Owned extraction: `None` when nothing matches, the value itself for a
    /// single match, and an array of the matches otherwise.
    pub fn extract(&self, value: &JsonValue) -> (r: Option<JsonValue>)
        ensures
            match r {
                Some(x) => spec_extract(self@, value@) == Some(x@),
                None => spec_extract(self@, value@) is None,
            },
    {
        let matches = self.extract_refs(value);
        proof {
            assert(views_of_refs(matches@).len() == matches@.len());
        }
        if matches.len() == 0 {
            None
        } else if matches.len() == 1 {
            Some(matches[0].deep_copy())
        } else {
            let mut out: Vec<JsonValue> = Vec::new();
            let mut i: usize = 0;
            while i < matches.len()
                invariant
                    i <= matches.len(),
                    out@.len() == i,
                    forall|j: int| 0 <= j < i ==> out@[j]@ == matches@[j]@,
                decreases matches.len() - i,
            {
                out.push(matches[i].deep_copy());
                i = i + 1;
            }
            let r = JsonValue::Arr(out);
            proof {
                lemma_json_view_seq(out@);
                assert(json_view_seq(out@) =~= views_of_refs(matches@));
            }
            Some(r)
        }
    }
}

} // verus!
