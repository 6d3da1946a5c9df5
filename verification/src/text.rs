//! Character-level text handling shared by the parser and the handlers:
//! whitespace, lines, words, trimming and prefixes, each with its meaning as a
//! spec function over `Seq<char>`.

use vstd::prelude::*;
use vstd::string::*;
use vstd::utf8::*;

verus! {

/// The views of a sequence of strings, in order.
pub open spec fn texts(v: Seq<String>) -> Seq<Seq<char>> {
    Seq::new(v.len(), |i: int| v[i]@)
}

/// Whether `c` has the Unicode `White_Space` property.
pub open spec fn is_whitespace(c: char) -> bool {
    let u = c as u32;
    ||| 0x09 <= u <= 0x0d
    ||| u == 0x20
    ||| u == 0x85
    ||| u == 0xa0
    ||| u == 0x1680
    ||| 0x2000 <= u <= 0x200a
    ||| u == 0x2028
    ||| u == 0x2029
    ||| u == 0x202f
    ||| u == 0x205f
    ||| u == 0x3000
}

/// Index of the first occurrence of `c` in `s`, or `s.len()` if there is none.
pub open spec fn position(s: Seq<char>, c: char) -> nat
    decreases s.len(),
{
    if s.len() == 0 || s[0] == c {
        0
    } else {
        1 + position(s.drop_first(), c)
    }
}

/// Number of whitespace characters at the start of `s`.
pub open spec fn blank_run(s: Seq<char>) -> nat
    decreases s.len(),
{
    if s.len() > 0 && is_whitespace(s[0]) {
        1 + blank_run(s.drop_first())
    } else {
        0
    }
}

/// Number of non-whitespace characters at the start of `s`.
pub open spec fn word_run(s: Seq<char>) -> nat
    decreases s.len(),
{
    if s.len() > 0 && !is_whitespace(s[0]) {
        1 + word_run(s.drop_first())
    } else {
        0
    }
}

/// Whether `c` occurs nowhere in `s`.
pub open spec fn free_of(s: Seq<char>, c: char) -> bool {
    forall|i: int| 0 <= i < s.len() ==> s[i] != c
}

/// Whether `w` is a word: not empty, and without whitespace.
pub open spec fn is_word(w: Seq<char>) -> bool {
    w.len() > 0 && forall|i: int| 0 <= i < w.len() ==> !is_whitespace(w[i])
}

/// `s` without the whitespace at its end.
pub open spec fn trim_end(s: Seq<char>) -> Seq<char>
    decreases s.len(),
{
    if s.len() > 0 && is_whitespace(s.last()) {
        trim_end(s.drop_last())
    } else {
        s
    }
}

/// `s` without the whitespace at its start and at its end.
pub open spec fn trimmed(s: Seq<char>) -> Seq<char> {
    trim_end(s.skip(blank_run(s) as int))
}

/// `s` without `prefix` at its start; `s` itself where it does not start with `prefix`.
pub open spec fn without_prefix(s: Seq<char>, prefix: Seq<char>) -> Seq<char> {
    if prefix.is_prefix_of(s) {
        s.skip(prefix.len() as int)
    } else {
        s
    }
}

/// Number of bytes in the UTF-8 encoding of `s`.
pub open spec fn byte_len(s: Seq<char>) -> nat {
    encode_utf8(s).len()
}

/// The largest character boundary of the UTF-8 text `bytes` that is at most `n`.
pub open spec fn floor_boundary(bytes: Seq<u8>, n: nat) -> nat
    decreases n,
{
    if n == 0 || is_char_boundary(bytes, n as int) {
        n
    } else {
        floor_boundary(bytes, (n - 1) as nat)
    }
}

/// `s` cut to `limit` bytes of UTF-8 without splitting a character: `s`
/// itself where its encoding has no more than `limit` bytes, and otherwise
/// what its encoding holds up to the last character boundary at or below
/// `limit`. This is the longest prefix of `s` that fits in `limit` bytes.
pub open spec fn utf8_prefix(s: Seq<char>, limit: nat) -> Seq<char> {
    let bytes = encode_utf8(s);
    if bytes.len() <= limit {
        s
    } else {
        decode_utf8(bytes.subrange(0, floor_boundary(bytes, limit) as int))
    }
}

/// `position(s, c)` is the only index that has no `c` before it and is either
/// the end of `s` or holds `c`.
pub proof fn lemma_position(s: Seq<char>, c: char, i: int)
    requires
        0 <= i <= s.len(),
        forall|j: int| 0 <= j < i ==> s[j] != c,
        i < s.len() ==> s[i] == c,
    ensures
        position(s, c) == i,
    decreases s.len(),
{
    if i > 0 {
        lemma_position(s.drop_first(), c, i - 1);
    }
}

/// `position(s, c)` lies within `s`, has no `c` before it, and holds `c`
/// unless it is the end.
pub proof fn lemma_position_bounds(s: Seq<char>, c: char)
    ensures
        position(s, c) <= s.len(),
        forall|j: int| 0 <= j < position(s, c) ==> s[j] != c,
        position(s, c) < s.len() ==> s[position(s, c) as int] == c,
    decreases s.len(),
{
    if !(s.len() == 0 || s[0] == c) {
        lemma_position_bounds(s.drop_first(), c);
        let t = s.drop_first();
        assert forall|j: int| 0 <= j < position(s, c) implies s[j] != c by {
            if j > 0 {
                assert(s[j] == t[j - 1]);
            }
        }
    }
}

/// `blank_run(s)` is the only index with whitespace alone before it that is
/// either the end of `s` or holds a non-whitespace character.
pub proof fn lemma_blank_run(s: Seq<char>, i: int)
    requires
        0 <= i <= s.len(),
        forall|j: int| 0 <= j < i ==> is_whitespace(s[j]),
        i < s.len() ==> !is_whitespace(s[i]),
    ensures
        blank_run(s) == i,
    decreases s.len(),
{
    if i > 0 {
        lemma_blank_run(s.drop_first(), i - 1);
    }
}

/// `word_run(s)` is the only index with no whitespace before it that is
/// either the end of `s` or holds a whitespace character.
pub proof fn lemma_word_run(s: Seq<char>, i: int)
    requires
        0 <= i <= s.len(),
        forall|j: int| 0 <= j < i ==> !is_whitespace(s[j]),
        i < s.len() ==> is_whitespace(s[i]),
    ensures
        word_run(s) == i,
    decreases s.len(),
{
    if i > 0 {
        lemma_word_run(s.drop_first(), i - 1);
    }
}

/// `blank_run(s)` lies within `s`.
pub proof fn lemma_blank_run_bounds(s: Seq<char>)
    ensures
        blank_run(s) <= s.len(),
        forall|j: int| 0 <= j < blank_run(s) ==> is_whitespace(s[j]),
        blank_run(s) < s.len() ==> !is_whitespace(s[blank_run(s) as int]),
    decreases s.len(),
{
    if s.len() > 0 && is_whitespace(s[0]) {
        lemma_blank_run_bounds(s.drop_first());
        let t = s.drop_first();
        assert forall|j: int| 0 <= j < blank_run(s) implies is_whitespace(s[j]) by {
            if j > 0 {
                assert(s[j] == t[j - 1]);
            }
        }
    }
}

/// `word_run(s)` lies within `s`.
pub proof fn lemma_word_run_bounds(s: Seq<char>)
    ensures
        word_run(s) <= s.len(),
        forall|j: int| 0 <= j < word_run(s) ==> !is_whitespace(s[j]),
        word_run(s) < s.len() ==> is_whitespace(s[word_run(s) as int]),
    decreases s.len(),
{
    if s.len() > 0 && !is_whitespace(s[0]) {
        lemma_word_run_bounds(s.drop_first());
        let t = s.drop_first();
        assert forall|j: int| 0 <= j < word_run(s) implies !is_whitespace(s[j]) by {
            if j > 0 {
                assert(s[j] == t[j - 1]);
            }
        }
    }
}

/// `trim_end(s)` is `s` cut at the only index that has whitespace alone from
/// it on and is either the start of `s` or follows a non-whitespace character.
pub proof fn lemma_trim_end(s: Seq<char>, i: int)
    requires
        0 <= i <= s.len(),
        forall|j: int| i <= j < s.len() ==> is_whitespace(s[j]),
        i > 0 ==> !is_whitespace(s[i - 1]),
    ensures
        trim_end(s) == s.take(i),
    decreases s.len(),
{
    if i < s.len() {
        lemma_trim_end(s.drop_last(), i);
        assert(s.drop_last().take(i) =~= s.take(i));
    } else {
        assert(s.take(i) =~= s);
    }
}

/// `floor_boundary(bytes, n)` is a character boundary of `bytes`, at most `n`.
pub proof fn lemma_floor_boundary(bytes: Seq<u8>, n: nat)
    requires
        valid_utf8(bytes),
    ensures
        floor_boundary(bytes, n) <= n,
        is_char_boundary(bytes, floor_boundary(bytes, n) as int),
    decreases n,
{
    if !(n == 0 || is_char_boundary(bytes, n as int)) {
        lemma_floor_boundary(bytes, (n - 1) as nat);
    }
}

/// The prefix cut by `utf8_prefix` starts `s` and fits in `limit` bytes.
proof fn lemma_utf8_prefix_fits(s: Seq<char>, limit: nat)
    ensures
        utf8_prefix(s, limit).is_prefix_of(s),
        byte_len(utf8_prefix(s, limit)) <= limit,
{
    let bytes = encode_utf8(s);
    encode_utf8_valid_utf8(s);
    if bytes.len() > limit {
        let m = floor_boundary(bytes, limit) as int;
        lemma_floor_boundary(bytes, limit);
        valid_utf8_split(bytes, m);
        decode_utf8_split(bytes, m);
        encode_utf8_decode_utf8(s);
        let head = decode_utf8(bytes.subrange(0, m));
        let tail = decode_utf8(bytes.subrange(m, bytes.len() as int));
        assert(s =~= head + tail);
        assert(head =~= s.subrange(0, head.len() as int));
        decode_utf8_encode_utf8(bytes.subrange(0, m));
    } else {
        assert(s =~= s.subrange(0, s.len() as int));
    }
}

/// The encoding of two texts one after the other is their encodings one
/// after the other.
pub proof fn lemma_encode_concat(a: Seq<char>, b: Seq<char>)
    ensures
        encode_utf8(a + b) == encode_utf8(a) + encode_utf8(b),
    decreases a.len(),
{
    if a.len() == 0 {
        assert(a + b =~= b);
        assert(encode_utf8(a) + encode_utf8(b) =~= encode_utf8(b));
    } else {
        lemma_encode_concat(a.drop_first(), b);
        assert((a + b).drop_first() =~= a.drop_first() + b);
        assert(encode_utf8(a + b) =~= encode_utf8(a) + encode_utf8(b));
    }
}

/// Where a prefix of a text ends, its encoding has a character boundary.
pub proof fn lemma_prefix_boundary(s: Seq<char>, k: int)
    requires
        0 <= k <= s.len(),
    ensures
        byte_len(s.take(k)) <= byte_len(s),
        is_char_boundary(encode_utf8(s), byte_len(s.take(k)) as int),
    decreases k,
{
    let bytes = encode_utf8(s);
    encode_utf8_valid_utf8(s);
    if k == 0 {
        assert(s.take(0) =~= Seq::<char>::empty());
    } else {
        let rest = s.drop_first();
        encode_utf8_first_scalar(s);
        assert(pop_first_scalar(bytes) =~= encode_utf8(rest));
        lemma_prefix_boundary(rest, k - 1);
        assert(s.take(k).drop_first() =~= rest.take(k - 1));
        assert(s.take(k)[0] == s[0]);
        assert(encode_utf8(s.take(k)) =~= encode_scalar(s[0] as u32) + encode_utf8(
            rest.take(k - 1),
        ));
    }
}

/// No character boundary at or below `n` lies beyond `floor_boundary(bytes, n)`.
pub proof fn lemma_floor_boundary_is_last(bytes: Seq<u8>, n: nat, j: int)
    requires
        0 <= j <= n,
        is_char_boundary(bytes, j),
    ensures
        j <= floor_boundary(bytes, n),
    decreases n,
{
    if !(n == 0 || is_char_boundary(bytes, n as int)) {
        lemma_floor_boundary_is_last(bytes, (n - 1) as nat, j);
    }
}

/// `utf8_prefix(s, limit)` is the longest prefix of `s` that fits in `limit`
/// bytes: it starts `s`, it fits, and with one more character of `s` it
/// would not.
pub proof fn lemma_utf8_prefix(s: Seq<char>, limit: nat)
    ensures
        utf8_prefix(s, limit).is_prefix_of(s),
        utf8_prefix(s, limit) == s.take(utf8_prefix(s, limit).len() as int),
        utf8_prefix(s, limit).len() <= s.len(),
        byte_len(utf8_prefix(s, limit)) <= limit,
        utf8_prefix(s, limit).len() < s.len() ==> byte_len(
            s.take(utf8_prefix(s, limit).len() as int + 1),
        ) > limit,
{
    let bytes = encode_utf8(s);
    let p = utf8_prefix(s, limit);
    lemma_utf8_prefix_fits(s, limit);
    assert(p =~= s.take(p.len() as int));
    if p.len() < s.len() {
        let m = floor_boundary(bytes, limit);
        let longer = s.take(p.len() as int + 1);
        encode_utf8_valid_utf8(s);
        lemma_floor_boundary(bytes, limit);
        valid_utf8_split(bytes, m as int);
        decode_utf8_encode_utf8(bytes.subrange(0, m as int));
        assert(byte_len(p) == m);
        lemma_prefix_boundary(s, p.len() as int + 1);
        assert(longer =~= p + seq![s[p.len() as int]]);
        lemma_encode_concat(p, seq![s[p.len() as int]]);
        let one = seq![s[p.len() as int]];
        assert(one.drop_first() =~= Seq::<char>::empty());
        assert(encode_utf8(one.drop_first()) =~= Seq::<u8>::empty());
        assert(encode_utf8(one) =~= encode_scalar(one[0] as u32));
        char_is_scalar(one[0]);
        assert(encode_scalar(one[0] as u32).len() >= 1);
        if byte_len(longer) <= limit {
            lemma_floor_boundary_is_last(bytes, limit, byte_len(longer) as int);
        }
    }
}

/// The characters of `s`, as a vector that can be indexed in constant time.
pub fn to_chars(s: &str) -> (v: Vec<char>)
    ensures
        v@ == s@,
{
    let mut v: Vec<char> = Vec::new();
    for c in it: s.chars()
        invariant
            it.seq() == s@,
            v@ == s@.take(it.index() as int),
    {
        v.push(c);
    }
    v
}

/// Tests `c` for the Unicode `White_Space` property.
pub fn char_is_whitespace(c: char) -> (b: bool)
    ensures
        b == is_whitespace(c),
{
    let u: u32 = c as u32;
    (0x09 <= u && u <= 0x0d) || u == 0x20 || u == 0x85 || u == 0xa0 || u == 0x1680 || (0x2000 <= u
        && u <= 0x200a) || u == 0x2028 || u == 0x2029 || u == 0x202f || u == 0x205f || u == 0x3000
}

/// First index at or after `from` that holds `c`, or the length of `cs`.
pub fn find_char(cs: &Vec<char>, from: usize, c: char) -> (i: usize)
    requires
        from <= cs.len(),
    ensures
        from <= i <= cs.len(),
        i == from + position(cs@.skip(from as int), c),
        forall|j: int| from <= j < i ==> cs@[j] != c,
        i < cs.len() ==> cs@[i as int] == c,
{
    let mut i: usize = from;
    while i < cs.len() && cs[i] != c
        invariant
            from <= i <= cs.len(),
            forall|j: int| from <= j < i ==> cs@[j] != c,
        decreases cs.len() - i,
    {
        i += 1;
    }
    proof {
        lemma_position(cs@.skip(from as int), c, i - from);
    }
    i
}

/// First index at or after `from` that holds no whitespace, or the length of `cs`.
pub fn skip_blanks(cs: &Vec<char>, from: usize) -> (i: usize)
    requires
        from <= cs.len(),
    ensures
        from <= i <= cs.len(),
        i == from + blank_run(cs@.skip(from as int)),
        forall|j: int| from <= j < i ==> is_whitespace(cs@[j]),
        i < cs.len() ==> !is_whitespace(cs@[i as int]),
{
    let mut i: usize = from;
    while i < cs.len() && char_is_whitespace(cs[i])
        invariant
            from <= i <= cs.len(),
            forall|j: int| from <= j < i ==> is_whitespace(cs@[j]),
        decreases cs.len() - i,
    {
        i += 1;
    }
    proof {
        lemma_blank_run(cs@.skip(from as int), i - from);
    }
    i
}

/// First index at or after `from` that holds whitespace, or the length of `cs`.
pub fn skip_word(cs: &Vec<char>, from: usize) -> (i: usize)
    requires
        from <= cs.len(),
    ensures
        from <= i <= cs.len(),
        i == from + word_run(cs@.skip(from as int)),
        forall|j: int| from <= j < i ==> !is_whitespace(cs@[j]),
        i < cs.len() ==> is_whitespace(cs@[i as int]),
{
    let mut i: usize = from;
    while i < cs.len() && !char_is_whitespace(cs[i])
        invariant
            from <= i <= cs.len(),
            forall|j: int| from <= j < i ==> !is_whitespace(cs@[j]),
        decreases cs.len() - i,
    {
        i += 1;
    }
    proof {
        lemma_word_run(cs@.skip(from as int), i - from);
    }
    i
}

/// `s` without the whitespace at its start and at its end.
pub fn trim<'a>(s: &'a str) -> (r: &'a str)
    ensures
        r@ == trimmed(s@),
{
    let cs = to_chars(s);
    let start = skip_blanks(&cs, 0);
    let mut end: usize = cs.len();
    while end > start && char_is_whitespace(cs[end - 1])
        invariant
            start <= end <= cs.len(),
            forall|j: int| end <= j < cs.len() ==> is_whitespace(cs@[j]),
        decreases end,
    {
        end -= 1;
    }
    proof {
        assert(cs@.skip(0) =~= cs@);
        let rest = s@.skip(start as int);
        lemma_trim_end(rest, end - start);
        assert(rest.take(end - start) =~= s@.subrange(start as int, end as int));
    }
    s.substring_char(start, end)
}

/// Whether `s` starts with `prefix`.
pub fn starts_with(s: &str, prefix: &str) -> (b: bool)
    ensures
        b == prefix@.is_prefix_of(s@),
{
    let cs = to_chars(s);
    let ps = to_chars(prefix);
    if ps.len() > cs.len() {
        return false;
    }
    let mut i: usize = 0;
    while i < ps.len()
        invariant
            i <= ps.len() <= cs.len(),
            cs@ == s@,
            ps@ == prefix@,
            forall|j: int| 0 <= j < i ==> cs@[j] == ps@[j],
        decreases ps.len() - i,
    {
        if cs[i] != ps[i] {
            assert(s@.subrange(0, prefix@.len() as int)[i as int] != prefix@[i as int]);
            return false;
        }
        i += 1;
    }
    assert(prefix@ =~= s@.subrange(0, prefix@.len() as int));
    true
}

/// `s` without `prefix` at its start; `s` itself where it does not start with `prefix`.
pub fn strip_prefix<'a>(s: &'a str, prefix: &str) -> (r: &'a str)
    ensures
        r@ == without_prefix(s@, prefix@),
{
    if starts_with(s, prefix) {
        s.substring_char(prefix.unicode_len(), s.unicode_len())
    } else {
        s
    }
}

/// `s` cut to `limit` bytes of UTF-8 without splitting a character.
pub fn truncate_utf8<'a>(s: &'a str, limit: usize) -> (r: &'a str)
    ensures
        r@ == utf8_prefix(s@, limit as nat),
{
    if s.as_bytes().len() <= limit {
        return s;
    }
    let ghost bytes = encode_utf8(s@);
    proof {
        encode_utf8_valid_utf8(s@);
    }
    let mut m: usize = limit;
    while m > 0 && !s.is_char_boundary(m)
        invariant
            m <= limit < bytes.len(),
            bytes == s.spec_bytes(),
            valid_utf8(bytes),
            floor_boundary(bytes, m as nat) == floor_boundary(bytes, limit as nat),
        decreases m,
    {
        m -= 1;
    }
    let (head, _) = s.split_at(m);
    proof {
        assert(floor_boundary(bytes, limit as nat) == m);
        encode_utf8_decode_utf8(head@);
    }
    head
}

/// Whether `a` and `b` hold the same text.
pub fn same_text(a: &str, b: &str) -> (same: bool)
    ensures
        same == (a@ == b@),
{
    let same = a.unicode_len() == b.unicode_len() && starts_with(a, b);
    assert(same ==> a@ =~= b@);
    same
}

} // verus!
