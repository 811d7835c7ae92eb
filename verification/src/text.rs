//! Character sequences: white space, trimming, searching and splitting.
//!
//! Every function here works on positions counted in characters, so that a
//! range found in the characters of a string can be cut out of the string
//! itself.

use vstd::prelude::*;
use vstd::slice::slice_subrange;
use vstd::string::StrSliceExecFns;

verus! {

/// Whether `c` is white space: one of the characters that Unicode marks
/// `White_Space`.
pub open spec fn is_white_space(c: char) -> bool {
    let n = c as u32;
    ||| 0x09 <= n <= 0x0d
    ||| n == 0x20
    ||| n == 0x85
    ||| n == 0xa0
    ||| n == 0x1680
    ||| 0x2000 <= n <= 0x200a
    ||| n == 0x2028
    ||| n == 0x2029
    ||| n == 0x202f
    ||| n == 0x205f
    ||| n == 0x3000
}

/// `s` without its leading white space.
pub open spec fn trim_start(s: Seq<char>) -> Seq<char>
    decreases s.len(),
{
    if s.len() > 0 && is_white_space(s.first()) {
        trim_start(s.drop_first())
    } else {
        s
    }
}

/// `s` without its trailing white space.
pub open spec fn trim_end(s: Seq<char>) -> Seq<char>
    decreases s.len(),
{
    if s.len() > 0 && is_white_space(s.last()) {
        trim_end(s.drop_last())
    } else {
        s
    }
}

/// `s` without its leading and trailing white space.
pub open spec fn trim(s: Seq<char>) -> Seq<char> {
    trim_end(trim_start(s))
}

/// The position of the first white space character of `s` at or after
/// `from`, if there is one.
pub open spec fn white_space_from(s: Seq<char>, from: int) -> Option<int>
    decreases s.len() - from,
{
    if from < 0 || from >= s.len() {
        None
    } else if is_white_space(s[from]) {
        Some(from)
    } else {
        white_space_from(s, from + 1)
    }
}

/// The position of the first white space character of `s`, if there is one.
pub open spec fn first_white_space(s: Seq<char>) -> Option<int> {
    white_space_from(s, 0)
}

/// Whether `pat` stands in `s` at position `at`.
pub open spec fn occurs_at(s: Seq<char>, pat: Seq<char>, at: int) -> bool {
    &&& 0 <= at
    &&& at + pat.len() <= s.len()
    &&& s.subrange(at, at + pat.len()) == pat
}

/// The first position at or after `from` where `pat` stands in `s`, if there
/// is one.
pub open spec fn occurrence_from(s: Seq<char>, pat: Seq<char>, from: int) -> Option<int>
    decreases s.len() + 1 - from,
{
    if from < 0 || from + pat.len() > s.len() {
        None
    } else if occurs_at(s, pat, from) {
        Some(from)
    } else {
        occurrence_from(s, pat, from + 1)
    }
}

/// The first position where `pat` stands in `s`, if there is one.
pub open spec fn first_occurrence(s: Seq<char>, pat: Seq<char>) -> Option<int> {
    occurrence_from(s, pat, 0)
}

/// The segments of `s` between the occurrences of a non-empty `pat`, found
/// from left to right without overlap. There is always at least one segment.
pub open spec fn split(s: Seq<char>, pat: Seq<char>) -> Seq<Seq<char>>
    decreases s.len(),
{
    let found = first_occurrence(s, pat);
    if found is Some && 0 <= found->0 && 0 < pat.len() && found->0 + pat.len() <= s.len() {
        seq![s.subrange(0, found->0)] + split(s.subrange(found->0 + pat.len(), s.len() as int), pat)
    } else {
        seq![s]
    }
}

/// The lines of `text`: its segments between line feeds, without the empty
/// one behind a last line feed. An empty text has no line. A carriage return
/// before a line feed stays in its line.
pub open spec fn lines(text: Seq<char>) -> Seq<Seq<char>> {
    let segments = split(text, seq!['\n']);
    if segments.last().len() == 0 {
        segments.drop_last()
    } else {
        segments
    }
}

/// `s` without one leading and without one trailing double quote, where it
/// has them.
pub open spec fn strip_quotes(s: Seq<char>) -> Seq<char> {
    let t = if s.len() > 0 && s.first() == '"' {
        s.drop_first()
    } else {
        s
    };
    if t.len() > 0 && t.last() == '"' {
        t.drop_last()
    } else {
        t
    }
}

/// What `white_space_from` finds is the first white space character at or
/// after `from`, and it finds one whenever there is one.
pub proof fn lemma_white_space_from(s: Seq<char>, from: int)
    requires
        0 <= from,
    ensures
        match white_space_from(s, from) {
            Some(i) => {
                &&& from <= i < s.len()
                &&& is_white_space(s[i])
                &&& forall|j: int| from <= j < i ==> !is_white_space(#[trigger] s[j])
            },
            None => forall|j: int| from <= j < s.len() ==> !is_white_space(#[trigger] s[j]),
        },
    decreases s.len() - from,
{
    if from < s.len() && !is_white_space(s[from]) {
        lemma_white_space_from(s, from + 1);
    }
}

/// What `occurrence_from` finds is the first occurrence at or after `from`,
/// and it finds one whenever there is one.
pub proof fn lemma_occurrence_from(s: Seq<char>, pat: Seq<char>, from: int)
    requires
        0 <= from,
    ensures
        match occurrence_from(s, pat, from) {
            Some(i) => {
                &&& from <= i
                &&& occurs_at(s, pat, i)
                &&& forall|j: int| from <= j < i ==> !occurs_at(s, pat, j)
            },
            None => forall|j: int| from <= j ==> !occurs_at(s, pat, j),
        },
    decreases s.len() + 1 - from,
{
    if from + pat.len() <= s.len() && !occurs_at(s, pat, from) {
        lemma_occurrence_from(s, pat, from + 1);
    }
}

/// `split` cuts at the first occurrence and goes on behind it; without an
/// occurrence the whole of `s` is the one segment.
pub proof fn lemma_split_step(s: Seq<char>, pat: Seq<char>)
    requires
        pat.len() > 0,
    ensures
        split(s, pat).len() >= 1,
        match first_occurrence(s, pat) {
            Some(i) => {
                &&& 0 <= i
                &&& i + pat.len() <= s.len()
                &&& split(s, pat) == seq![s.subrange(0, i)] + split(
                    s.subrange(i + pat.len(), s.len() as int),
                    pat,
                )
            },
            None => split(s, pat) == seq![s],
        },
    decreases s.len(),
{
    lemma_occurrence_from(s, pat, 0);
    match first_occurrence(s, pat) {
        Some(i) => {
            lemma_split_step(s.subrange(i + pat.len(), s.len() as int), pat);
        },
        None => {},
    }
}

/// Two occurrences of `pat` that do not overlap give at least three segments.
pub proof fn lemma_split_in_three(s: Seq<char>, pat: Seq<char>, first: int, second: int)
    requires
        pat.len() > 0,
        occurs_at(s, pat, first),
        occurs_at(s, pat, second),
        first + pat.len() <= second,
    ensures
        split(s, pat).len() >= 3,
{
    lemma_split_step(s, pat);
    lemma_occurrence_from(s, pat, 0);
    let at = first_occurrence(s, pat)->0;
    let rest = s.subrange(at + pat.len(), s.len() as int);
    let shifted = second - at - pat.len();
    assert(rest.subrange(shifted, shifted + pat.len()) == s.subrange(second, second + pat.len()));
    assert(occurs_at(rest, pat, shifted));
    lemma_split_step(rest, pat);
    lemma_occurrence_from(rest, pat, 0);
    let next = first_occurrence(rest, pat)->0;
    lemma_split_step(rest.subrange(next + pat.len(), rest.len() as int), pat);
}

/// Whether `s` neither starts nor ends with white space.
pub open spec fn is_trimmed(s: Seq<char>) -> bool {
    s.len() > 0 ==> !is_white_space(s.first()) && !is_white_space(s.last())
}

/// Whether `s` holds nothing but white space.
pub open spec fn is_blank(s: Seq<char>) -> bool {
    forall|i: int| 0 <= i < s.len() ==> is_white_space(#[trigger] s[i])
}

/// White space in front of `s` does not change what `trim_start` keeps.
pub proof fn lemma_trim_start_blank(pad: Seq<char>, s: Seq<char>)
    requires
        is_blank(pad),
    ensures
        trim_start(pad + s) == trim_start(s),
    decreases pad.len(),
{
    if pad.len() > 0 {
        assert((pad + s).first() == pad[0]);
        assert((pad + s).drop_first() == pad.drop_first() + s);
        lemma_trim_start_blank(pad.drop_first(), s);
    } else {
        assert(pad + s == s);
    }
}

/// White space behind `s` does not change what `trim_end` keeps.
pub proof fn lemma_trim_end_blank(s: Seq<char>, pad: Seq<char>)
    requires
        is_blank(pad),
    ensures
        trim_end(s + pad) == trim_end(s),
    decreases pad.len(),
{
    if pad.len() > 0 {
        assert((s + pad).last() == pad.last());
        assert((s + pad).drop_last() == s + pad.drop_last());
        lemma_trim_end_blank(s, pad.drop_last());
    } else {
        assert(s + pad == s);
    }
}

/// Trimming takes the white space around `s` away and leaves `s`, where `s`
/// itself neither starts nor ends with white space.
pub proof fn lemma_trim_padded(lead: Seq<char>, s: Seq<char>, trail: Seq<char>)
    requires
        is_blank(lead),
        is_blank(trail),
        is_trimmed(s),
    ensures
        trim(lead + s + trail) == s,
{
    assert(lead + s + trail == lead + (s + trail));
    lemma_trim_start_blank(lead, s + trail);
    if s.len() > 0 {
        assert((s + trail).first() == s.first());
        lemma_trim_end_blank(s, trail);
    } else {
        assert(s + trail == trail + s);
        lemma_trim_start_blank(trail, s);
    }
}

/// Decides `is_white_space`.
pub fn white_space(c: char) -> (b: bool)
    ensures
        b == is_white_space(c),
{
    let n: u32 = c as u32;
    (0x09 <= n && n <= 0x0d) || n == 0x20 || n == 0x85 || n == 0xa0 || n == 0x1680 || (0x2000 <= n
        && n <= 0x200a) || n == 0x2028 || n == 0x2029 || n == 0x202f || n == 0x205f || n == 0x3000
}

/// The characters of `s`, in order.
pub fn chars_of(s: &str) -> (v: Vec<char>)
    ensures
        v@ == s@,
{
    let mut v: Vec<char> = Vec::new();
    for c in it: s.chars()
        invariant
            it.seq() == s@,
            v@ == it.seq().subrange(0, it.index() as int),
    {
        v.push(c);
    }
    v
}

/// The range of `s` that `trim` keeps.
pub fn trim_bounds(s: &[char]) -> (r: (usize, usize))
    ensures
        r.0 <= r.1 <= s@.len(),
        s@.subrange(r.0 as int, r.1 as int) == trim(s@),
{
    let n: usize = s.len();
    let mut lo: usize = 0;
    assert(s@.subrange(0, n as int) == s@);
    while lo < n && white_space(s[lo])
        invariant
            lo <= n == s@.len(),
            trim_start(s@) == trim_start(s@.subrange(lo as int, n as int)),
        decreases n - lo,
    {
        assert(s@.subrange(lo as int, n as int).drop_first() == s@.subrange(lo + 1, n as int));
        lo = lo + 1;
    }
    assert(trim_start(s@) == s@.subrange(lo as int, n as int));
    let mut hi: usize = n;
    while lo < hi && white_space(s[hi - 1])
        invariant
            lo <= hi <= n == s@.len(),
            trim(s@) == trim_end(s@.subrange(lo as int, hi as int)),
        decreases hi,
    {
        assert(s@.subrange(lo as int, hi as int).drop_last() == s@.subrange(lo as int, hi - 1));
        hi = hi - 1;
    }
    (lo, hi)
}

/// The position of the first white space character of `s`.
pub fn find_white_space(s: &[char]) -> (r: Option<usize>)
    ensures
        match r {
            Some(i) => first_white_space(s@) == Some(i as int),
            None => first_white_space(s@) is None,
        },
{
    let n: usize = s.len();
    let mut i: usize = 0;
    while i < n
        invariant
            i <= n == s@.len(),
            first_white_space(s@) == white_space_from(s@, i as int),
        decreases n - i,
    {
        if white_space(s[i]) {
            return Some(i);
        }
        i = i + 1;
    }
    None
}

/// Whether `pat` stands in `s` at position `at`.
pub fn stands_at(s: &[char], pat: &[char], at: usize) -> (b: bool)
    ensures
        b == occurs_at(s@, pat@, at as int),
{
    let n: usize = s.len();
    let m: usize = pat.len();
    if at > n || m > n - at {
        return false;
    }
    let mut k: usize = 0;
    while k < m
        invariant
            k <= m == pat@.len(),
            at + m <= n == s@.len(),
            forall|j: int| 0 <= j < k ==> s@[at + j] == pat@[j],
        decreases m - k,
    {
        if s[at + k] != pat[k] {
            assert(s@.subrange(at as int, at + m)[k as int] == s@[at + k]);
            return false;
        }
        k = k + 1;
    }
    assert(s@.subrange(at as int, at + m) =~= pat@);
    true
}

/// The first position where `pat` stands in `s`.
pub fn find(s: &[char], pat: &[char]) -> (r: Option<usize>)
    ensures
        match r {
            Some(i) => first_occurrence(s@, pat@) == Some(i as int),
            None => first_occurrence(s@, pat@) is None,
        },
{
    let n: usize = s.len();
    let m: usize = pat.len();
    if m > n {
        return None;
    }
    let last: usize = n - m;
    let mut i: usize = 0;
    loop
        invariant
            last + m == n == s@.len(),
            m == pat@.len(),
            i <= last,
            first_occurrence(s@, pat@) == occurrence_from(s@, pat@, i as int),
        decreases last - i,
    {
        if stands_at(s, pat, i) {
            return Some(i);
        }
        if i == last {
            assert(occurrence_from(s@, pat@, i + 1) is None);
            return None;
        }
        i = i + 1;
    }
}

/// The range of `s` that `strip_quotes` keeps.
pub fn strip_quotes_bounds(s: &[char]) -> (r: (usize, usize))
    ensures
        r.0 <= r.1 <= s@.len(),
        s@.subrange(r.0 as int, r.1 as int) == strip_quotes(s@),
{
    let n: usize = s.len();
    let lo: usize = if n > 0 && s[0] == '"' {
        1
    } else {
        0
    };
    let hi: usize = if lo < n && s[n - 1] == '"' {
        n - 1
    } else {
        n
    };
    assert(s@.subrange(lo as int, n as int) == if lo == 1 {
        s@.drop_first()
    } else {
        s@
    });
    assert(s@.subrange(lo as int, hi as int) == if hi < n {
        s@.subrange(lo as int, n as int).drop_last()
    } else {
        s@.subrange(lo as int, n as int)
    });
    (lo, hi)
}

/// The parts of `s` that the ranges in `bounds` cut out, in their order.
pub open spec fn parts(s: Seq<char>, bounds: Seq<(usize, usize)>) -> Seq<Seq<char>> {
    Seq::new(bounds.len(), |k: int| s.subrange(bounds[k].0 as int, bounds[k].1 as int))
}

/// The ranges of the segments into which `split` cuts `s`.
pub fn split_bounds(s: &[char], pat: &[char]) -> (bounds: Vec<(usize, usize)>)
    requires
        pat@.len() > 0,
    ensures
        parts(s@, bounds@) == split(s@, pat@),
        forall|k: int| 0 <= k < bounds@.len() ==> (#[trigger] bounds@[k]).0 <= bounds@[k].1 <= s@.len(),
{
    let n: usize = s.len();
    let m: usize = pat.len();
    let mut bounds: Vec<(usize, usize)> = Vec::new();
    let mut start: usize = 0;
    assert(s@.subrange(0, n as int) == s@);
    loop
        invariant
            start <= n == s@.len(),
            0 < m == pat@.len(),
            split(s@, pat@) == parts(s@, bounds@) + split(s@.subrange(start as int, n as int), pat@),
            forall|k: int| 0 <= k < bounds@.len() ==> (#[trigger] bounds@[k]).0 <= bounds@[k].1 <= n,
        decreases n - start,
    {
        let rest = slice_subrange(s, start, n);
        let ghost before = bounds@;
        proof {
            lemma_split_step(rest@, pat@);
        }
        match find(rest, pat) {
            Some(at) => {
                bounds.push((start, start + at));
                proof {
                    assert(rest@.subrange(0, at as int) == s@.subrange(
                        start as int,
                        start + at,
                    ));
                    assert(rest@.subrange(at + m, rest@.len() as int) == s@.subrange(
                        start + at + m,
                        n as int,
                    ));
                    assert(parts(s@, bounds@) == parts(s@, before) + seq![
                        s@.subrange(start as int, start + at),
                    ]);
                }
                start = start + at + m;
            },
            None => {
                bounds.push((start, n));
                proof {
                    assert(parts(s@, bounds@) == parts(s@, before) + seq![rest@]);
                }
                return bounds;
            },
        }
    }
}

/// The lines of `text`, in order.
pub fn lines_of(text: &str) -> (r: Vec<&str>)
    ensures
        r@.len() == lines(text@).len(),
        forall|k: int| 0 <= k < r@.len() ==> (#[trigger] r@[k])@ == lines(text@)[k],
{
    let chars = chars_of(text);
    let mut feed: Vec<char> = Vec::new();
    feed.push('\n');
    assert(feed@ == seq!['\n']);
    let mut bounds = split_bounds(chars.as_slice(), feed.as_slice());
    proof {
        lemma_split_step(text@, feed@);
    }
    assert(parts(text@, bounds@).len() == bounds@.len());
    let (from, to) = bounds[bounds.len() - 1];
    assert(parts(text@, bounds@).last() == text@.subrange(from as int, to as int));
    if from == to {
        bounds.pop();
    }
    assert(parts(text@, bounds@) == lines(text@));
    let mut r: Vec<&str> = Vec::new();
    let mut k: usize = 0;
    while k < bounds.len()
        invariant
            k <= bounds@.len(),
            r@.len() == k,
            forall|j: int| 0 <= j < bounds@.len() ==> (#[trigger] bounds@[j]).0 <= bounds@[j].1 <= text@.len(),
            forall|j: int| 0 <= j < k ==> (#[trigger] r@[j])@ == parts(text@, bounds@)[j],
        decreases bounds@.len() - k,
    {
        let (from, to) = bounds[k];
        r.push(text.substring_char(from, to));
        k = k + 1;
    }
    r
}

/// The part of `s` from position `from` up to, not including, position `to`.
pub fn part(s: &[char], from: usize, to: usize) -> (r: &[char])
    requires
        from <= to <= s@.len(),
    ensures
        r@ == s@.subrange(from as int, to as int),
{
    slice_subrange(s, from, to)
}

} // verus!
