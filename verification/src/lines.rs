//! Splitting text into lines and lines into words.

use crate::text::{
    blank_run, find_char, free_of, is_whitespace, is_word, lemma_blank_run_bounds, lemma_position,
    lemma_position_bounds, lemma_word_run, lemma_word_run_bounds, position, skip_blanks, skip_word,
    texts, to_chars, word_run,
};
use vstd::prelude::*;
use vstd::string::*;

verus! {

/// `line` without one carriage return at its end, if it has one.
pub open spec fn strip_cr(line: Seq<char>) -> Seq<char> {
    if line.len() > 0 && line.last() == '\r' {
        line.drop_last()
    } else {
        line
    }
}

/// The lines of `s`. A line ends at a line feed; the line feed, and a carriage
/// return directly before it, are not part of the line. What follows the last
/// line feed is a line of its own unless it is empty, and is kept verbatim.
pub open spec fn lines(s: Seq<char>) -> Seq<Seq<char>>
    decreases s.len(),
{
    if s.len() == 0 {
        Seq::empty()
    } else {
        let i = position(s, '\n');
        if i >= s.len() {
            seq![s]
        } else {
            seq![strip_cr(s.take(i as int))] + lines(s.skip(i as int + 1))
        }
    }
}

/// The words of `s`: its maximal runs of non-whitespace characters, in order.
pub open spec fn words(s: Seq<char>) -> Seq<Seq<char>>
    decreases s.len(),
{
    if s.len() == 0 {
        Seq::empty()
    } else if is_whitespace(s[0]) {
        words(s.drop_first())
    } else {
        proof {
            lemma_word_run_bounds(s);
        }
        let n = word_run(s);
        seq![s.take(n as int)] + words(s.skip(n as int))
    }
}

/// Leading whitespace adds no word.
pub proof fn lemma_words_skip_blanks(s: Seq<char>)
    ensures
        words(s) == words(s.skip(blank_run(s) as int)),
    decreases s.len(),
{
    if s.len() > 0 && is_whitespace(s[0]) {
        let t = s.drop_first();
        lemma_words_skip_blanks(t);
        lemma_blank_run_bounds(t);
        assert(t.skip(blank_run(t) as int) =~= s.skip(blank_run(s) as int));
    } else {
        assert(s.skip(0) =~= s);
    }
}

/// No line holds a line feed.
pub proof fn lemma_lines_free_of_line_feed(s: Seq<char>)
    ensures
        forall|i: int| 0 <= i < lines(s).len() ==> free_of(#[trigger] lines(s)[i], '\n'),
    decreases s.len(),
{
    if s.len() > 0 {
        lemma_position_bounds(s, '\n');
        let n = position(s, '\n') as int;
        if n < s.len() {
            let tail = lines(s.skip(n + 1));
            lemma_lines_free_of_line_feed(s.skip(n + 1));
            assert forall|i: int| 0 <= i < lines(s).len() implies free_of(
                #[trigger] lines(s)[i],
                '\n',
            ) by {
                if i > 0 {
                    assert(lines(s)[i] == tail[i - 1]);
                }
            }
        }
    }
}

/// Every word is a word: not empty, and without whitespace.
pub proof fn lemma_words_are_words(s: Seq<char>)
    ensures
        forall|i: int| 0 <= i < words(s).len() ==> is_word(#[trigger] words(s)[i]),
    decreases s.len(),
{
    if s.len() == 0 {
    } else if is_whitespace(s[0]) {
        lemma_words_are_words(s.drop_first());
        assert(words(s) == words(s.drop_first()));
    } else {
        lemma_word_run_bounds(s);
        let tail = words(s.skip(word_run(s) as int));
        lemma_words_are_words(s.skip(word_run(s) as int));
        assert forall|i: int| 0 <= i < words(s).len() implies is_word(#[trigger] words(s)[i]) by {
            if i > 0 {
                assert(words(s)[i] == tail[i - 1]);
            }
        }
    }
}

/// A text that starts with a line, ended by CR LF, has that line first and
/// then the lines of what follows.
pub proof fn lemma_lines_after_line(line: Seq<char>, rest: Seq<char>)
    requires
        free_of(line, '\n'),
    ensures
        lines(line + seq!['\r', '\n'] + rest) == seq![line] + lines(rest),
{
    let s = line + seq!['\r', '\n'] + rest;
    let n = line.len() as int + 1;
    lemma_position(s, '\n', n);
    assert(strip_cr(s.take(n)) =~= line);
    assert(s.skip(n + 1) =~= rest);
}

/// A text that starts with a word, followed by nothing or by whitespace, has
/// that word first and then the words of what follows.
pub proof fn lemma_words_after_word(word: Seq<char>, rest: Seq<char>)
    requires
        is_word(word),
        rest.len() == 0 || is_whitespace(rest[0]),
    ensures
        words(word + rest) == seq![word] + words(rest),
{
    let s = word + rest;
    let n = word.len() as int;
    lemma_word_run(s, n);
    assert(s.take(n) =~= word);
    assert(s.skip(n) =~= rest);
}

/// Splits `text` into its lines.
pub fn split_lines(text: &str) -> (out: Vec<String>)
    ensures
        texts(out@) == lines(text@),
{
    let cs = to_chars(text);
    let n = cs.len();
    let mut out: Vec<String> = Vec::new();
    let mut start: usize = 0;
    proof {
        assert(text@.skip(0) =~= text@);
        assert(texts(out@) + lines(text@) =~= lines(text@));
    }
    while start < n
        invariant
            start <= n,
            n == cs.len(),
            cs@ == text@,
            texts(out@) + lines(text@.skip(start as int)) == lines(text@),
        decreases n - start,
    {
        let ghost rest = text@.skip(start as int);
        let ghost before = texts(out@);
        let nl = find_char(&cs, start, '\n');
        if nl == n {
            out.push(text.substring_char(start, n).to_owned());
            proof {
                assert(text@.subrange(start as int, n as int) =~= rest);
                assert(text@.skip(n as int).len() == 0);
                assert(texts(out@) =~= before + seq![rest]);
                assert(before + seq![rest] =~= before + lines(rest));
            }
            start = n;
        } else {
            let end = if nl > start && cs[nl - 1] == '\r' {
                nl - 1
            } else {
                nl
            };
            out.push(text.substring_char(start, end).to_owned());
            proof {
                let i = position(rest, '\n');
                let line = rest.take(i as int);
                assert(line =~= text@.subrange(start as int, nl as int));
                assert(strip_cr(line) =~= text@.subrange(start as int, end as int));
                assert(rest.skip(i as int + 1) =~= text@.skip(nl + 1));
                assert(texts(out@) =~= before + seq![strip_cr(line)]);
                assert(before + seq![strip_cr(line)] + lines(text@.skip(nl + 1)) =~= before
                    + lines(rest));
            }
            start = nl + 1;
        }
    }
    proof {
        assert(lines(text@.skip(start as int)) =~= Seq::<Seq<char>>::empty());
        assert(texts(out@) + Seq::<Seq<char>>::empty() =~= texts(out@));
    }
    out
}

/// Splits `line` into its words.
pub fn split_words(line: &str) -> (out: Vec<String>)
    ensures
        texts(out@) == words(line@),
{
    let cs = to_chars(line);
    let n = cs.len();
    let mut out: Vec<String> = Vec::new();
    proof {
        lemma_words_skip_blanks(line@);
        assert(line@.skip(0) =~= line@);
    }
    let mut start: usize = skip_blanks(&cs, 0);
    proof {
        assert(texts(out@) + words(line@.skip(start as int)) =~= words(line@));
    }
    while start < n
        invariant
            start <= n,
            n == cs.len(),
            cs@ == line@,
            start < n ==> !is_whitespace(cs@[start as int]),
            texts(out@) + words(line@.skip(start as int)) == words(line@),
        decreases n - start,
    {
        let ghost rest = line@.skip(start as int);
        let ghost before = texts(out@);
        let end = skip_word(&cs, start);
        out.push(line.substring_char(start, end).to_owned());
        let next = skip_blanks(&cs, end);
        proof {
            let k = word_run(rest);
            lemma_word_run_bounds(rest);
            assert(rest.take(k as int) =~= line@.subrange(start as int, end as int));
            assert(rest.skip(k as int) =~= line@.skip(end as int));
            lemma_words_skip_blanks(line@.skip(end as int));
            lemma_blank_run_bounds(line@.skip(end as int));
            assert(line@.skip(end as int).skip(next - end) =~= line@.skip(next as int));
            assert(texts(out@) =~= before + seq![rest.take(k as int)]);
            assert(before + seq![rest.take(k as int)] + words(line@.skip(next as int)) =~= before
                + words(rest));
        }
        start = next;
    }
    proof {
        assert(words(line@.skip(start as int)) =~= Seq::<Seq<char>>::empty());
        assert(texts(out@) + Seq::<Seq<char>>::empty() =~= texts(out@));
    }
    out
}

} // verus!
