//! Lines and parts of UTF-8 text, as bytes.

use vstd::prelude::*;
use vstd::string::*;
use vstd::utf8::*;

verus! {

/// The byte that ends a line.
pub const NEWLINE: u8 = 10;

/// The bytes of a text.
pub open spec fn text_bytes(text: &str) -> Seq<u8> {
    encode_utf8(text@)
}

/// Whether `part` stands in `text` at position `at`.
pub open spec fn stands_at(text: Seq<u8>, part: Seq<u8>, at: int) -> bool {
    &&& 0 <= at
    &&& at + part.len() <= text.len()
    &&& text.subrange(at, at + part.len()) == part
}

/// Whether `part` stands anywhere in `text`.
pub open spec fn holds_part(text: Seq<u8>, part: Seq<u8>) -> bool {
    exists|at: int| stands_at(text, part, at)
}

/// Whether `line`, its newline included, is a whole line of `text` that starts
/// at position `at`.
pub open spec fn line_at(text: Seq<u8>, line: Seq<u8>, at: int) -> bool {
    stands_at(text, line, at) && (at == 0 || text[at - 1] == NEWLINE)
}

/// The first position from `from` on where `line` is a whole line of `text`.
pub open spec fn first_line_from(text: Seq<u8>, line: Seq<u8>, from: int) -> Option<int>
    decreases text.len() - from,
{
    if from < 0 || from + line.len() > text.len() || from >= text.len() {
        None
    } else if line_at(text, line, from) {
        Some(from)
    } else {
        first_line_from(text, line, from + 1)
    }
}

/// The first position where `line` is a whole line of `text`.
pub open spec fn first_line(text: Seq<u8>, line: Seq<u8>) -> Option<int> {
    first_line_from(text, line, 0)
}

/// `text` without the first of its lines that is `line`.
pub open spec fn without_line(text: Seq<u8>, line: Seq<u8>) -> Seq<u8> {
    match first_line(text, line) {
        Some(at) => text.subrange(0, at) + text.subrange(at + line.len(), text.len() as int),
        None => text,
    }
}

/// Whether a text ends its last line.
pub open spec fn ends_line(text: Seq<u8>) -> bool {
    text.len() > 0 && text.last() == NEWLINE
}

/// The first line found is the first there is.
pub proof fn lemma_first_line_from(text: Seq<u8>, line: Seq<u8>, from: int)
    requires
        0 <= from,
        line.len() > 0,
    ensures
        first_line_from(text, line, from) matches Some(at) ==> from <= at && line_at(text, line, at)
            && forall|i: int| from <= i < at ==> !line_at(text, line, i),
        first_line_from(text, line, from) is None ==> forall|i: int|
            from <= i ==> !line_at(text, line, i),
    decreases text.len() - from,
{
    if from + line.len() > text.len() || from >= text.len() {
    } else if line_at(text, line, from) {
    } else {
        lemma_first_line_from(text, line, from + 1);
    }
}

/// A position with a match and none before it is where the first line stands.
pub proof fn lemma_first_line_is(text: Seq<u8>, line: Seq<u8>, at: int)
    requires
        line.len() > 0,
        line_at(text, line, at),
        forall|i: int| 0 <= i < at ==> !line_at(text, line, i),
    ensures
        first_line(text, line) == Some(at),
{
    lemma_first_line_from(text, line, 0);
}

/// Encoding joined texts joins their encodings.
pub proof fn lemma_encode_joined(a: Seq<char>, b: Seq<char>)
    ensures
        encode_utf8(a + b) == encode_utf8(a) + encode_utf8(b),
    decreases a.len(),
{
    if a.len() == 0 {
        assert(a + b =~= b);
        assert(encode_utf8(a) + encode_utf8(b) =~= encode_utf8(b));
    } else {
        assert((a + b).drop_first() =~= a.drop_first() + b);
        lemma_encode_joined(a.drop_first(), b);
        assert(encode_scalar(a[0] as u32) + (encode_utf8(a.drop_first()) + encode_utf8(b))
            =~= encode_utf8(a) + encode_utf8(b));
    }
}

/// A valid part of a valid text starts and ends on character boundaries.
proof fn lemma_part_boundaries(text: Seq<u8>, part: Seq<u8>, at: int)
    requires
        valid_utf8(text),
        valid_utf8(part),
        part.len() > 0,
        stands_at(text, part, at),
    ensures
        is_char_boundary(text, at),
        is_char_boundary(text.subrange(at, text.len() as int), part.len() as int),
{
    let rest = text.subrange(at, text.len() as int);
    assert(text[at] == part[0]) by {
        assert(text.subrange(at, at + part.len())[0] == text[at]);
    }
    is_char_boundary_iff_not_is_continuation_byte(text, at);
    valid_utf8_split(text, at);
    let after = rest.subrange(part.len() as int, rest.len() as int);
    assert(rest.subrange(0, part.len() as int) =~= part);
    if !valid_utf8(after) {
        partial_valid_partial_invalid_utf8(rest, part.len() as int);
    }
    if after.len() == 0 {
        is_char_boundary_start_end_of_seq(rest);
    } else {
        assert(after[0] == rest[part.len() as int]);
        is_char_boundary_iff_not_is_continuation_byte(rest, part.len() as int);
    }
}

/// Whether `part` stands in `text` at `at`.
fn part_at(text: &[u8], part: &[u8], at: usize) -> (r: bool)
    requires
        at + part@.len() <= text@.len(),
    ensures
        r == stands_at(text@, part@, at as int),
{
    let ghost window = text@.subrange(at as int, at + part@.len());
    let n: usize = text.len();
    let mut i: usize = 0;
    while i < part.len()
        invariant
            i <= part@.len(),
            n == text@.len(),
            at + part@.len() <= text@.len(),
            window == text@.subrange(at as int, at + part@.len()),
            forall|j: int| 0 <= j < i ==> window[j] == part@[j],
        decreases part@.len() - i,
    {
        if text[at + i] != part[i] {
            assert(window[i as int] != part@[i as int]);
            return false;
        }
        i = i + 1;
    }
    assert(window =~= part@);
    true
}

/// The first position where `line`, which ends in a newline, is a whole line of
/// `file`. The newline enforces the end of the line; the start is looked at here.
pub fn find_exact_line(file: &[u8], line: &[u8]) -> (r: Option<usize>)
    requires
        ends_line(line@),
    ensures
        match r {
            Some(at) => {
                &&& first_line(file@, line@) == Some(at as int)
                &&& line_at(file@, line@, at as int)
                &&& forall|i: int| 0 <= i < at ==> !line_at(file@, line@, i)
            },
            None => {
                &&& first_line(file@, line@) is None
                &&& forall|i: int| !line_at(file@, line@, i)
            },
        },
{
    let mut at: usize = 0;
    while at < file.len() && line.len() <= file.len() - at
        invariant
            at <= file@.len(),
            ends_line(line@),
            forall|i: int| 0 <= i < at ==> !line_at(file@, line@, i),
        decreases file@.len() - at,
    {
        if part_at(file, line, at) && (at == 0 || file[at - 1] == NEWLINE) {
            proof {
                lemma_first_line_is(file@, line@, at as int);
            }
            return Some(at);
        }
        at = at + 1;
    }
    proof {
        lemma_first_line_from(file@, line@, 0);
        assert forall|i: int| !line_at(file@, line@, i) by {
            if i >= at {
                assert(!stands_at(file@, line@, i));
            }
        }
    }
    None
}

/// Whether `part` stands anywhere in `text`.
pub fn contains_part(text: &str, part: &str) -> (r: bool)
    ensures
        r == holds_part(text_bytes(text), text_bytes(part)),
{
    let whole: &[u8] = text.as_bytes();
    let wanted: &[u8] = part.as_bytes();
    let n: usize = whole.len();
    let mut at: usize = 0;
    while at <= n && wanted.len() <= n - at
        invariant
            at <= n,
            n == whole@.len(),
            whole@ == text_bytes(text),
            wanted@ == text_bytes(part),
            forall|i: int| 0 <= i < at ==> !stands_at(whole@, wanted@, i),
        decreases whole@.len() + 1 - at,
    {
        if part_at(whole, wanted, at) {
            return true;
        }
        assert(wanted@.len() > 0) by {
            if wanted@.len() == 0 {
                assert(whole@.subrange(at as int, at as int) =~= wanted@);
            }
        }
        at = at + 1;
    }
    assert forall|i: int| !stands_at(whole@, wanted@, i) by {}
    false
}

/// Whether `text` ends its last line.
pub fn ends_with_newline(text: &str) -> (r: bool)
    ensures
        r == ends_line(text_bytes(text)),
{
    let bytes: &[u8] = text.as_bytes();
    bytes.len() > 0 && bytes[bytes.len() - 1] == NEWLINE
}

/// `text` without the first of its lines that is `line`, if it has such a line.
pub fn remove_line(text: &str, line: &str) -> (r: Option<String>)
    requires
        ends_line(text_bytes(line)),
    ensures
        r is Some <==> first_line(text_bytes(text), text_bytes(line)) is Some,
        r matches Some(rest) ==> encode_utf8(rest@) == without_line(
            text_bytes(text),
            text_bytes(line),
        ),
{
    let whole: &[u8] = text.as_bytes();
    let wanted: &[u8] = line.as_bytes();
    match find_exact_line(whole, wanted) {
        None => None,
        Some(at) => {
            proof {
                encode_utf8_valid_utf8(text@);
                encode_utf8_valid_utf8(line@);
                lemma_part_boundaries(whole@, wanted@, at as int);
            }
            let (before, rest) = text.split_at(at);
            let (_, after) = rest.split_at(wanted.len());
            let mut kept: String = before.to_owned();
            kept.append(after);
            proof {
                lemma_encode_joined(before@, after@);
                assert(text_bytes(after) =~= whole@.subrange(
                    at + wanted@.len(),
                    whole@.len() as int,
                ));
            }
            Some(kept)
        },
    }
}

/// A line that is found stands there as a whole line, byte for byte: it begins the text
/// or follows on a newline. No position `i` in front of it has that line.
pub proof fn found_line_is_the_first_whole_line(
    text: Seq<u8>,
    line: Seq<u8>,
    at: int,
    i: int,
)
    requires
        line.len() > 0,
        first_line(text, line) == Some(at),
    ensures
        0 <= at,
        at + line.len() <= text.len(),
        text.subrange(at, at + line.len()) == line,
        at == 0 || text[at - 1] == 10,
        0 <= i < at && text.subrange(i, i + line.len()) == line ==> i > 0 && text[i - 1] != 10,
{
    lemma_first_line_from(text, line, 0);
    if 0 <= i < at && text.subrange(i, i + line.len()) == line {
        assert(!line_at(text, line, i));
    }
}

/// Where no line is found, none stands: a position `i` at which the bytes of the line
/// stand lies within another line.
pub proof fn line_that_stands_is_found(text: Seq<u8>, line: Seq<u8>, i: int)
    requires
        line.len() > 0,
        0 <= i,
        i + line.len() <= text.len(),
        text.subrange(i, i + line.len()) == line,
        i == 0 || text[i - 1] == 10,
    ensures
        first_line(text, line) is Some,
        first_line(text, line)->0 <= i,
{
    lemma_first_line_from(text, line, 0);
    assert(line_at(text, line, i));
}

/// Removing a line keeps all else in place: the bytes in front of it stay where they
/// are, and those behind it follow on them in their order.
pub proof fn removal_keeps_the_rest_in_place(text: Seq<u8>, line: Seq<u8>, i: int)
    requires
        line.len() > 0,
    ensures
        match first_line(text, line) {
            Some(at) => {
                let rest = without_line(text, line);
                &&& rest.len() == text.len() - line.len()
                &&& 0 <= i < at ==> rest[i] == text[i]
                &&& at <= i < rest.len() ==> rest[i] == text[i + line.len()]
            },
            None => without_line(text, line) == text,
        },
{
    lemma_first_line_from(text, line, 0);
}

/// Putting a line back where it was removed gives the text.
pub proof fn removed_line_can_be_put_back(text: Seq<u8>, line: Seq<u8>)
    requires
        line.len() > 0,
        first_line(text, line) is Some,
    ensures
        ({
            let at = first_line(text, line)->0;
            let rest = without_line(text, line);
            rest.subrange(0, at) + line + rest.subrange(at, rest.len() as int) == text
        }),
{
    lemma_first_line_from(text, line, 0);
    let at = first_line(text, line)->0;
    let rest = without_line(text, line);
    assert(text.subrange(at, at + line.len()) == line);
    assert forall|k: int| 0 <= k < line.len() implies line[k] == #[trigger] text[at + k] by {
        assert(text.subrange(at, at + line.len())[k] == text[at + k]);
    }
    let whole = rest.subrange(0, at) + line + rest.subrange(at, rest.len() as int);
    assert forall|k: int| 0 <= k < text.len() implies whole[k] == text[k] by {
        if at <= k < at + line.len() {
            assert(whole[k] == line[k - at]);
            assert(text[at + (k - at)] == line[k - at]);
        }
    }
    assert(whole =~= text);
}

/// A text holds the part that it was put together from, and one that it holds stands
/// in it, byte for byte.
pub proof fn part_is_held_where_it_stands(
    before: Seq<u8>,
    part: Seq<u8>,
    after: Seq<u8>,
    text: Seq<u8>,
)
    ensures
        holds_part(before + part + after, part),
        holds_part(text, part) ==> exists|at: int|
            #![trigger text.skip(at)]
            0 <= at && at + part.len() <= text.len() && text.skip(at).take(part.len() as int)
                == part,
{
    let whole = before + part + after;
    let at = before.len() as int;
    assert(whole.subrange(at, at + part.len()) =~= part);
    assert(stands_at(whole, part, at));
    if holds_part(text, part) {
        let found = choose|found: int| stands_at(text, part, found);
        assert(text.skip(found).take(part.len() as int) =~= text.subrange(
            found,
            found + part.len(),
        ));
    }
}

/// A text ends its last line exactly where its last byte is a newline.
pub proof fn line_ends_with_a_newline(text: Seq<u8>)
    ensures
        ends_line(text) <==> text.len() > 0 && text[text.len() - 1] == 10,
        ends_line(text.push(10)),
{
}

/// The bytes of a text are its encoding.
pub proof fn text_is_encoded(text: &str)
    ensures
        text_bytes(text) == encode_utf8(text@),
{
}

} // verus!
