//! Lines of a short status report, and the path each one names.
//!
//! A line is a status code, white space and a file field. The field of a
//! rename or a copy is `old -> new`, and the path it names is the new one. A
//! path may stand in double quotes. Lines that report a deletion name their
//! path like any other.

use crate::text::{
    chars_of, find_white_space, first_occurrence, first_white_space, is_blank, is_trimmed,
    is_white_space, lemma_split_in_three, lemma_split_step, lemma_trim_padded,
    lemma_white_space_from, occurs_at, part, parts, split, split_bounds, strip_quotes,
    strip_quotes_bounds, trim, trim_bounds,
};
use vstd::prelude::*;
use vstd::std_specs::iter::IteratorSpec;
use vstd::string::StrSliceExecFns;

verus! {

/// Why a line names no path.
#[derive(Debug, Clone, Copy, PartialEq, Eq, Structural)]
pub enum ParseError {
    /// No white space parts a status code from a file field.
    MissingSeparator,
    /// The file field of a rename or a copy does not split at ` -> ` into
    /// exactly an old and a new path.
    AmbiguousRename,
}

/// The separator between the old and the new path of a rename or a copy.
pub open spec fn arrow() -> Seq<char> {
    seq![' ', '-', '>', ' ']
}

/// Whether a status code is that of a rename or of a copy.
pub open spec fn is_rename_code(code: Seq<char>) -> bool {
    code == seq!['R'] || code == seq!['C']
}

/// The status code and the file field of `line`, where white space parts
/// them.
pub open spec fn fields(line: Seq<char>) -> Option<(Seq<char>, Seq<char>)> {
    let entry = trim(line);
    match first_white_space(entry) {
        Some(i) => Some((entry.subrange(0, i), trim(entry.subrange(i, entry.len() as int)))),
        None => None,
    }
}

/// The path that `line` names, or why it names none.
pub open spec fn parsed(line: Seq<char>) -> Result<Seq<char>, ParseError> {
    match fields(line) {
        None => Err(ParseError::MissingSeparator),
        Some((code, field)) => if is_rename_code(code) {
            let names = split(field, arrow());
            if names.len() == 2 {
                Ok(strip_quotes(names[1]))
            } else {
                Err(ParseError::AmbiguousRename)
            }
        } else {
            Ok(strip_quotes(field))
        },
    }
}

/// The characters of the separator ` -> `.
fn arrow_chars() -> (v: Vec<char>)
    ensures
        v@ == arrow(),
{
    let mut v: Vec<char> = Vec::new();
    v.push(' ');
    v.push('-');
    v.push('>');
    v.push(' ');
    assert(v@ =~= arrow());
    v
}

/// The new path of the rename or copy field `line`: the second of the two
/// segments into which ` -> ` splits it. Quotes stay.
pub fn new_file_from_rename(line: &str) -> (file: String)
    requires
        split(line@, arrow()).len() == 2,
    ensures
        file@ == split(line@, arrow())[1],
{
    let chars = chars_of(line);
    let sep = arrow_chars();
    let files = split_bounds(chars.as_slice(), sep.as_slice());
    assert(parts(chars@, files@)[1] == split(line@, arrow())[1]);
    let (from, to) = files[1];
    line.substring_char(from, to).to_owned()
}

/// Whether `code` is the status code of a rename or of a copy.
fn is_rename(code: &[char]) -> (b: bool)
    ensures
        b == is_rename_code(code@),
{
    let b = code.len() == 1 && (code[0] == 'R' || code[0] == 'C');
    proof {
        if b {
            assert(code@ =~= seq![code@[0]]);
        } else if code@.len() == 1 {
            assert(seq!['R'][0] == 'R' && seq!['C'][0] == 'C');
        }
    }
    b
}

/// `text` without one leading and without one trailing double quote.
fn unquoted(text: &str) -> (r: String)
    ensures
        r@ == strip_quotes(text@),
{
    let chars = chars_of(text);
    let (from, to) = strip_quotes_bounds(chars.as_slice());
    text.substring_char(from, to).to_owned()
}

/// The path that `line` names: its file field, or for a rename or a copy the
/// new path of that field, without the quotes around it. It is always `Some`.
pub fn file_path_for_line(line: &str) -> (path: Option<String>)
    requires
        parsed(line@) is Ok,
    ensures
        path is Some,
        parsed(line@) == Ok::<Seq<char>, ParseError>(path->0@),
{
    let chars = chars_of(line);
    let (from, to) = trim_bounds(chars.as_slice());
    let entry = part(chars.as_slice(), from, to);
    let idx: usize = find_white_space(entry).unwrap();
    proof {
        lemma_white_space_from(entry@, 0);
    }
    let file_status = part(entry, 0, idx);
    let rest = part(entry, idx, entry.len());
    let (lo, hi) = trim_bounds(rest);
    assert(line@.subrange(from + idx + lo, from + idx + hi) == rest@.subrange(lo as int, hi as int));
    let file: &str = line.substring_char(from + idx + lo, from + idx + hi);
    let name: String = if is_rename(file_status) {
        new_file_from_rename(file)
    } else {
        file.to_owned()
    };
    Some(unquoted(name.as_str()))
}

/// Whether `field` splits at ` -> ` into exactly an old and a new path.
fn splits_in_two(field: &[char]) -> (b: bool)
    ensures
        b == (split(field@, arrow()).len() == 2),
{
    let sep = arrow_chars();
    split_bounds(field, sep.as_slice()).len() == 2
}

/// Whether `line`, the file field of a rename or a copy, splits at ` -> `
/// into exactly an old and a new path.
pub fn rename_is_unambiguous(line: &str) -> (b: bool)
    ensures
        b == (split(line@, arrow()).len() == 2),
{
    let chars = chars_of(line);
    splits_in_two(chars.as_slice())
}

/// The path that `line` names, or why it names none.
pub fn parse_line(line: &str) -> (r: Result<String, ParseError>)
    ensures
        match r {
            Ok(path) => parsed(line@) == Ok::<Seq<char>, ParseError>(path@),
            Err(e) => parsed(line@) == Err::<Seq<char>, ParseError>(e),
        },
{
    let chars = chars_of(line);
    let (from, to) = trim_bounds(chars.as_slice());
    let entry = part(chars.as_slice(), from, to);
    match find_white_space(entry) {
        None => Err(ParseError::MissingSeparator),
        Some(idx) => {
            proof {
                lemma_white_space_from(entry@, 0);
            }
            let rest = part(entry, idx, entry.len());
            let (lo, hi) = trim_bounds(rest);
            if is_rename(part(entry, 0, idx)) && !splits_in_two(part(rest, lo, hi)) {
                Err(ParseError::AmbiguousRename)
            } else {
                Ok(file_path_for_line(line).unwrap())
            }
        },
    }
}

/// The paths that `lines` name, one for each line and in their order. The
/// iterator is one that ends, as those of the standard collections do.
pub fn paths_for_lines<'a, I>(lines: I) -> (paths: Vec<String>) where I: Iterator<Item = &'a str>
    requires
        lines.obeys_prophetic_iter_laws(),
        lines.decrease() is Some,
        forall|i: int|
            0 <= i < lines.remaining().len() ==> parsed(#[trigger] lines.remaining()[i]@) is Ok,
    ensures
        paths@.len() == lines.remaining().len(),
        forall|i: int|
            0 <= i < paths@.len() ==> parsed(#[trigger] lines.remaining()[i]@) == Ok::<
                Seq<char>,
                ParseError,
            >(paths@[i]@),
{
    let mut rest = lines;
    let mut paths: Vec<String> = Vec::new();
    loop
        invariant
            rest.obeys_prophetic_iter_laws(),
            rest.decrease() is Some,
            paths@.len() + rest.remaining().len() == lines.remaining().len(),
            rest.remaining() == lines.remaining().subrange(
                paths@.len() as int,
                lines.remaining().len() as int,
            ),
            forall|i: int|
                0 <= i < lines.remaining().len() ==> parsed(#[trigger] lines.remaining()[i]@) is Ok,
            forall|i: int|
                0 <= i < paths@.len() ==> parsed(#[trigger] lines.remaining()[i]@) == Ok::<
                    Seq<char>,
                    ParseError,
                >(paths@[i]@),
        decreases rest.decrease()->0,
    {
        match rest.next() {
            Some(line) => {
                assert(line == lines.remaining()[paths@.len() as int]);
                match file_path_for_line(line) {
                    Some(path) => paths.push(path),
                    None => {},
                }
            },
            None => {
                return paths;
            },
        }
    }
}

/// Whether `code` can stand as a status code: it is not empty and holds no
/// white space.
pub open spec fn is_status_code(code: Seq<char>) -> bool {
    &&& code.len() > 0
    &&& forall|i: int| 0 <= i < code.len() ==> !is_white_space(#[trigger] code[i])
}

/// A line is parted again into the status code and the file field it was
/// made of: white space or none, the code, white space, the field, white
/// space or none. The field neither starts nor ends with white space.
pub proof fn lemma_fields_of_entry(
    lead: Seq<char>,
    code: Seq<char>,
    gap: Seq<char>,
    field: Seq<char>,
    trail: Seq<char>,
)
    requires
        is_blank(lead),
        is_status_code(code),
        is_blank(gap),
        gap.len() > 0,
        field.len() > 0,
        is_trimmed(field),
        is_blank(trail),
    ensures
        fields(lead + code + gap + field + trail) == Some((code, field)),
{
    let entry = code + gap + field;
    let n = code.len() as int;
    assert(entry.first() == code[0]);
    assert(entry.last() == field.last());
    assert(lead + code + gap + field + trail == lead + entry + trail);
    lemma_trim_padded(lead, entry, trail);
    lemma_white_space_from(entry, 0);
    assert(entry[n] == gap[0]);
    assert(forall|j: int| 0 <= j < n ==> entry[j] == code[j]);
    assert(first_white_space(entry) == Some(n));
    assert(entry.subrange(0, n) == code);
    assert(entry.subrange(n, entry.len() as int) == Seq::<char>::empty() + (gap + field)
        + Seq::<char>::empty());
    lemma_trim_padded(gap, field, Seq::empty());
    assert(gap + field + Seq::<char>::empty() == gap + field);
    assert(Seq::<char>::empty() + (gap + field) == gap + field);
}

/// A line whose status code is neither a rename's nor a copy's names the
/// path in its file field, without the quotes around it.
pub proof fn lemma_plain_line(
    lead: Seq<char>,
    code: Seq<char>,
    gap: Seq<char>,
    path: Seq<char>,
    trail: Seq<char>,
)
    requires
        is_blank(lead),
        is_status_code(code),
        !is_rename_code(code),
        is_blank(gap),
        gap.len() > 0,
        path.len() > 0,
        is_trimmed(path),
        is_blank(trail),
    ensures
        parsed(lead + code + gap + path + trail) == Ok::<Seq<char>, ParseError>(
            strip_quotes(path),
        ),
{
    lemma_fields_of_entry(lead, code, gap, path, trail);
}

/// A path in double quotes behind such a status code is named without them,
/// whatever stands between the quotes.
pub proof fn lemma_quoted_line(
    lead: Seq<char>,
    code: Seq<char>,
    gap: Seq<char>,
    path: Seq<char>,
    trail: Seq<char>,
)
    requires
        is_blank(lead),
        is_status_code(code),
        !is_rename_code(code),
        is_blank(gap),
        gap.len() > 0,
        is_blank(trail),
    ensures
        parsed(lead + code + gap + (seq!['"'] + path + seq!['"']) + trail) == Ok::<
            Seq<char>,
            ParseError,
        >(path),
{
    let quoted = seq!['"'] + path + seq!['"'];
    assert(quoted.first() == '"' && quoted.last() == '"');
    lemma_plain_line(lead, code, gap, quoted, trail);
    assert(quoted.drop_first() == path + seq!['"']);
    assert(quoted.drop_first().drop_last() == path);
}

/// A rename or copy line `old -> new` names the new path, without the quotes
/// around it, where the separator between the two is the first of the field
/// and the new path holds none.
pub proof fn lemma_rename_line(
    lead: Seq<char>,
    code: Seq<char>,
    gap: Seq<char>,
    old_path: Seq<char>,
    new_path: Seq<char>,
    trail: Seq<char>,
)
    requires
        is_blank(lead),
        is_rename_code(code),
        is_blank(gap),
        gap.len() > 0,
        old_path.len() > 0,
        !is_white_space(old_path.first()),
        new_path.len() > 0,
        !is_white_space(new_path.last()),
        is_blank(trail),
        first_occurrence(old_path + arrow() + new_path, arrow()) == Some(old_path.len() as int),
        first_occurrence(new_path, arrow()) is None,
    ensures
        parsed(lead + code + gap + (old_path + arrow() + new_path) + trail) == Ok::<
            Seq<char>,
            ParseError,
        >(strip_quotes(new_path)),
{
    let field = old_path + arrow() + new_path;
    assert(field.first() == old_path.first());
    assert(field.last() == new_path.last());
    assert(code[0] == 'R' || code[0] == 'C');
    lemma_fields_of_entry(lead, code, gap, field, trail);
    lemma_split_step(field, arrow());
    let mid = old_path.len() as int;
    assert(field.subrange(mid + 4, field.len() as int) == new_path);
    lemma_split_step(new_path, arrow());
}

/// A rename or copy line is rejected where the old or the new path holds the
/// separator ` -> ` itself, at position `at`.
pub proof fn lemma_arrow_in_name(
    lead: Seq<char>,
    code: Seq<char>,
    gap: Seq<char>,
    old_path: Seq<char>,
    new_path: Seq<char>,
    trail: Seq<char>,
    at: int,
)
    requires
        is_blank(lead),
        is_rename_code(code),
        is_blank(gap),
        gap.len() > 0,
        old_path.len() > 0,
        !is_white_space(old_path.first()),
        new_path.len() > 0,
        !is_white_space(new_path.last()),
        is_blank(trail),
        occurs_at(old_path, arrow(), at) || occurs_at(new_path, arrow(), at),
    ensures
        parsed(lead + code + gap + (old_path + arrow() + new_path) + trail) == Err::<
            Seq<char>,
            ParseError,
        >(ParseError::AmbiguousRename),
{
    let field = old_path + arrow() + new_path;
    let mid = old_path.len() as int;
    assert(field.first() == old_path.first());
    assert(field.last() == new_path.last());
    assert(code[0] == 'R' || code[0] == 'C');
    lemma_fields_of_entry(lead, code, gap, field, trail);
    assert(field.subrange(mid, mid + 4) == arrow());
    if occurs_at(old_path, arrow(), at) {
        assert(field.subrange(at, at + 4) == old_path.subrange(at, at + 4));
        lemma_split_in_three(field, arrow(), at, mid);
    } else {
        assert(field.subrange(mid + 4 + at, mid + 4 + at + 4) == new_path.subrange(at, at + 4));
        lemma_split_in_three(field, arrow(), mid, mid + 4 + at);
    }
}

} // verus!
