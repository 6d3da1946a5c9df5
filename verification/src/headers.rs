//! Header lines are kept as raw `Name: value` text, in the order received;
//! a header is looked up by the prefix of its line and the first match counts.

use crate::decimal::{parse_usize, parsed_usize};
use crate::text::{find_char, position, starts_with, texts, to_chars, trim, trimmed};
use vstd::prelude::*;
use vstd::string::*;

verus! {

/// Index of the first line of `headers` that starts with `name`, or
/// `headers.len()` if there is none.
pub open spec fn header_index(headers: Seq<Seq<char>>, name: Seq<char>) -> nat
    decreases headers.len(),
{
    if headers.len() == 0 || name.is_prefix_of(headers[0]) {
        0
    } else {
        1 + header_index(headers.drop_first(), name)
    }
}

/// The value that a header line carries: what follows its first colon,
/// without the whitespace around it. A line without a colon carries none.
pub open spec fn line_value(line: Seq<char>) -> Option<Seq<char>> {
    let i = position(line, ':');
    if i < line.len() {
        Some(trimmed(line.skip(i as int + 1)))
    } else {
        None
    }
}

/// The value of the first line of `headers` that starts with `name`; `None`
/// if no line starts with `name`, or if the first that does has no colon.
pub open spec fn header_value(headers: Seq<Seq<char>>, name: Seq<char>) -> Option<Seq<char>> {
    let i = header_index(headers, name);
    if i < headers.len() {
        line_value(headers[i as int])
    } else {
        None
    }
}

/// The body length that `headers` declare: the value of the `Content-Length`
/// header where it reads as an unsigned decimal number.
pub open spec fn declared_length(headers: Seq<Seq<char>>) -> Option<usize> {
    match header_value(headers, "Content-Length"@) {
        Some(v) => parsed_usize(v),
        None => None,
    }
}

/// `header_index(headers, name)` is the only index that has no line starting
/// with `name` before it and is either the end or such a line.
pub proof fn lemma_header_index(headers: Seq<Seq<char>>, name: Seq<char>, i: int)
    requires
        0 <= i <= headers.len(),
        forall|j: int| 0 <= j < i ==> !name.is_prefix_of(#[trigger] headers[j]),
        i < headers.len() ==> name.is_prefix_of(headers[i]),
    ensures
        header_index(headers, name) == i,
    decreases headers.len(),
{
    if i > 0 {
        let rest = headers.drop_first();
        assert forall|j: int| 0 <= j < i - 1 implies !name.is_prefix_of(#[trigger] rest[j]) by {
            assert(rest[j] == headers[j + 1]);
        }
        lemma_header_index(rest, name, i - 1);
    }
}

/// The value that the header line `line` carries, if it has a colon.
pub fn read_line_value(line: &str) -> (r: Option<String>)
    ensures
        match r {
            Some(v) => line_value(line@) == Some(v@),
            None => line_value(line@) is None,
        },
{
    let cs = to_chars(line);
    let colon = find_char(&cs, 0, ':');
    assert(line@.skip(0) =~= line@);
    if colon < cs.len() {
        let rest = line.substring_char(colon + 1, cs.len());
        assert(rest@ =~= line@.skip(colon as int + 1));
        Some(trim(rest).to_owned())
    } else {
        None
    }
}

/// The value of the first header whose line starts with `name`.
pub fn find_header_value(headers: &Vec<String>, name: &str) -> (r: Option<String>)
    ensures
        match r {
            Some(v) => header_value(texts(headers@), name@) == Some(v@),
            None => header_value(texts(headers@), name@) is None,
        },
{
    let mut i: usize = 0;
    while i < headers.len()
        invariant
            i <= headers.len(),
            forall|j: int| 0 <= j < i ==> !name@.is_prefix_of(#[trigger] texts(headers@)[j]),
        decreases headers.len() - i,
    {
        if starts_with(headers[i].as_str(), name) {
            proof {
                lemma_header_index(texts(headers@), name@, i as int);
            }
            return read_line_value(headers[i].as_str());
        }
        i += 1;
    }
    proof {
        lemma_header_index(texts(headers@), name@, i as int);
    }
    None
}

/// The body length that `headers` declare.
pub fn read_declared_length(headers: &Vec<String>) -> (r: Option<usize>)
    ensures
        r == declared_length(texts(headers@)),
{
    match find_header_value(headers, "Content-Length") {
        Some(v) => parse_usize(v.as_str()),
        None => None,
    }
}

} // verus!
