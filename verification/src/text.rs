//! Text as sequences of characters: the string operations that device names,
//! paths and system files need, each stated on the characters themselves.
use vstd::prelude::*;
use vstd::utf8::{decode_utf8, valid_utf8};

verus! {

/// `String::push` appends one character to the end of the string.
pub assume_specification[ String::push ](s: &mut String, c: char)
    ensures
        final(s)@ == old(s)@.push(c),
;

/// The text that `String::from_utf8_lossy` makes of `bytes`.
pub uninterp spec fn utf8_lossy(bytes: Seq<u8>) -> Seq<char>;

/// `String::from_utf8_lossy` gives a text that depends on the bytes alone. Valid
/// UTF-8 gives the text that it encodes; in other bytes, what is invalid is replaced.
/// How many replacement characters stand for invalid bytes is left open here.
#[verifier::external_body]
pub(crate) fn from_utf8_lossy(bytes: &[u8]) -> (s: String)
    ensures
        s@ == utf8_lossy(bytes@),
        valid_utf8(bytes@) ==> s@ == decode_utf8(bytes@),
{
    String::from_utf8_lossy(bytes).into_owned()
}

/// The characters of `s`, in order.
pub fn chars_of(s: &str) -> (chars: Vec<char>)
    ensures
        chars@ == s@,
{
    let mut chars: Vec<char> = Vec::new();
    for c in it: s.chars()
        invariant
            chars@ == it.seq().take(it.index()),
            it.seq() == s@,
    {
        chars.push(c);
    }
    chars
}

/// The string that holds exactly `chars`.
pub fn string_of(chars: &[char]) -> (s: String)
    ensures
        s@ == chars@,
{
    let mut s = String::new();
    let mut i: usize = 0;
    while i < chars.len()
        invariant
            i <= chars.len(),
            s@ == chars@.take(i as int),
        decreases chars.len() - i,
    {
        s.push(chars[i]);
        i = i + 1;
    }
    assert(chars@.take(i as int) == chars@);
    s
}

/// `a` followed by `b`.
pub fn joined(a: &str, b: &str) -> (s: String)
    ensures
        s@ == a@ + b@,
{
    let mut s = a.to_owned();
    s.append(b);
    s
}

/// `a`, then `b`, then `c`.
pub fn joined3(a: &str, b: &str, c: &str) -> (s: String)
    ensures
        s@ == a@ + b@ + c@,
{
    let mut s = joined(a, b);
    s.append(c);
    s
}

/// The texts that `texts` holds.
pub open spec fn texts_of(texts: Seq<String>) -> Seq<Seq<char>> {
    texts.map_values(|t: String| t@)
}

/// Whether `a` and `b` hold the same characters.
pub fn same_text(a: &str, b: &str) -> (same: bool)
    ensures
        same == (a@ == b@),
{
    let x = chars_of(a);
    let y = chars_of(b);
    if x.len() != y.len() {
        return false;
    }
    let mut i: usize = 0;
    while i < x.len()
        invariant
            i <= x.len(),
            x.len() == y.len(),
            x@ == a@,
            y@ == b@,
            forall|j: int| 0 <= j < i ==> x@[j] == y@[j],
        decreases x.len() - i,
    {
        if x[i] != y[i] {
            return false;
        }
        i = i + 1;
    }
    assert(x@ =~= y@);
    true
}

/// Whether `s` begins with `prefix`.
pub fn starts_with(s: &str, prefix: &str) -> (found: bool)
    ensures
        found == prefix@.is_prefix_of(s@),
{
    let x = chars_of(s);
    let y = chars_of(prefix);
    if x.len() < y.len() {
        return false;
    }
    let mut i: usize = 0;
    while i < y.len()
        invariant
            i <= y.len() <= x.len(),
            x@ == s@,
            y@ == prefix@,
            forall|j: int| 0 <= j < i ==> x@[j] == y@[j],
        decreases y.len() - i,
    {
        if x[i] != y[i] {
            assert(x@.subrange(0, y@.len() as int)[i as int] != y@[i as int]);
            return false;
        }
        i = i + 1;
    }
    assert(x@.subrange(0, y@.len() as int) =~= y@);
    true
}

/// What follows `prefix` in `s`, if `s` begins with it.
pub fn strip_prefix(s: &str, prefix: &str) -> (rest: Option<String>)
    ensures
        rest is Some <==> prefix@.is_prefix_of(s@),
        rest matches Some(r) ==> r@ == s@.skip(prefix@.len() as int),
{
    if starts_with(s, prefix) {
        let x = chars_of(s);
        let n: usize = chars_of(prefix).len();
        let end: usize = x.len();
        let rest = string_of(vstd::slice::slice_subrange(x.as_slice(), n, end));
        assert(rest@ =~= s@.skip(prefix@.len() as int));
        Some(rest)
    } else {
        None
    }
}

/// Whether `c` is one of the digits 0 to 9.
pub open spec fn is_digit(c: char) -> bool {
    '0' <= c <= '9'
}

/// Whether the last character of `s` is a digit. The empty text has none.
pub open spec fn ends_in_digit(s: Seq<char>) -> bool {
    s.len() > 0 && is_digit(s.last())
}

/// Whether `s` ends in a digit.
pub fn has_final_digit(s: &str) -> (found: bool)
    ensures
        found == ends_in_digit(s@),
        found <==> s@.len() > 0 && '0' <= s@.last() <= '9',
{
    let x = chars_of(s);
    if x.len() == 0 {
        false
    } else {
        let c: char = x[x.len() - 1];
        '0' <= c && c <= '9'
    }
}

/// Whether all of `s` are digits, and there is one.
pub open spec fn all_digits(s: Seq<char>) -> bool {
    s.len() > 0 && forall|i: int| 0 <= i < s.len() ==> is_digit(#[trigger] s[i])
}

/// Whether all of `s` are digits, and there is one.
pub fn has_only_digits(s: &str) -> (yes: bool)
    ensures
        yes == all_digits(s@),
        yes <==> s@.len() > 0 && forall|i: int|
            0 <= i < s@.len() ==> '0' <= #[trigger] s@[i] <= '9',
{
    let x = chars_of(s);
    let mut i: usize = 0;
    while i < x.len()
        invariant
            i <= x.len(),
            x@ == s@,
            forall|j: int| 0 <= j < i ==> is_digit(#[trigger] x@[j]),
        decreases x.len() - i,
    {
        if x[i] < '0' || x[i] > '9' {
            assert(!is_digit(s@[i as int]));
            assert(!('0' <= s@[i as int] <= '9'));
            return false;
        }
        i = i + 1;
    }
    assert forall|j: int| 0 <= j < s@.len() implies '0' <= #[trigger] s@[j] <= '9' by {
        assert(is_digit(x@[j]));
    }
    x.len() > 0
}

/// `s` without the run of `c` at its end.
pub open spec fn trim_end(s: Seq<char>, c: char) -> Seq<char>
    decreases s.len(),
{
    if s.len() > 0 && s.last() == c {
        trim_end(s.drop_last(), c)
    } else {
        s
    }
}

/// What is left is the start of the text and does not end in `c`; all that was cut off is
/// `c`.
pub proof fn law_trim_end(s: Seq<char>, c: char)
    ensures
        trim_end(s, c).len() <= s.len(),
        trim_end(s, c) == s.take(trim_end(s, c).len() as int),
        trim_end(s, c).len() > 0 ==> trim_end(s, c).last() != c,
        forall|i: int| trim_end(s, c).len() <= i < s.len() ==> s[i] == c,
    decreases s.len(),
{
    if s.len() > 0 && s.last() == c {
        let t = s.drop_last();
        law_trim_end(t, c);
        assert(trim_end(s, c) =~= s.take(trim_end(s, c).len() as int));
        assert forall|i: int| trim_end(s, c).len() <= i < s.len() implies s[i] == c by {
            if i < s.len() - 1 {
                assert(t[i] == s[i]);
            }
        }
    } else {
        assert(s.take(s.len() as int) =~= s);
    }
}

/// `s` without the run of `c` at its end.
pub fn trim_end_matches(s: &str, c: char) -> (t: String)
    ensures
        t@ == trim_end(s@, c),
{
    let x = chars_of(s);
    let mut n: usize = x.len();
    assert(x@.take(n as int) == s@);
    while n > 0 && x[n - 1] == c
        invariant
            n <= x.len(),
            trim_end(x@.take(n as int), c) == trim_end(s@, c),
        decreases n,
    {
        assert(x@.take(n as int).drop_last() == x@.take(n - 1));
        n = n - 1;
    }
    let t = string_of(vstd::slice::slice_subrange(x.as_slice(), 0, n));
    assert(t@ == x@.take(n as int));
    t
}

/// Whether `c` has the Unicode property `White_Space`.
pub open spec fn is_white(c: char) -> bool {
    let n = c as u32;
    ||| 9 <= n <= 13
    ||| n == 0x20
    ||| n == 0x85
    ||| n == 0xa0
    ||| n == 0x1680
    ||| 0x2000 <= n <= 0x200a
    ||| n == 0x2028
    ||| n == 0x2029
    ||| n == 0x202f
    ||| n == 0x205f
    ||| n == 0x3000
}

/// Whether `c` is white space.
pub fn white(c: char) -> (w: bool)
    ensures
        w == is_white(c),
        w <==> {
            ||| 9 <= c as u32 <= 13
            ||| c == ' '
            ||| c as u32 == 0x85
            ||| c as u32 == 0xa0
            ||| c as u32 == 0x1680
            ||| 0x2000 <= c as u32 <= 0x200a
            ||| c as u32 == 0x2028
            ||| c as u32 == 0x2029
            ||| c as u32 == 0x202f
            ||| c as u32 == 0x205f
            ||| c as u32 == 0x3000
        },
{
    let n: u32 = c as u32;
    (9 <= n && n <= 13) || n == 0x20 || n == 0x85 || n == 0xa0 || n == 0x1680 || (0x2000 <= n && n
        <= 0x200a) || n == 0x2028 || n == 0x2029 || n == 0x202f || n == 0x205f || n == 0x3000
}

/// The length of the run of white space at the start of `s`.
pub open spec fn white_run(s: Seq<char>) -> nat
    decreases s.len(),
{
    if s.len() > 0 && is_white(s[0]) {
        1 + white_run(s.skip(1))
    } else {
        0
    }
}

/// The length of the run of characters other than white space at the start of `s`.
pub open spec fn word_run(s: Seq<char>) -> nat
    decreases s.len(),
{
    if s.len() > 0 && !is_white(s[0]) {
        1 + word_run(s.skip(1))
    } else {
        0
    }
}

/// `s` without the white space at its end.
pub open spec fn trim_white_end(s: Seq<char>) -> Seq<char>
    decreases s.len(),
{
    if s.len() > 0 && is_white(s.last()) {
        trim_white_end(s.drop_last())
    } else {
        s
    }
}

/// `s` without the white space at its two ends.
pub open spec fn trimmed(s: Seq<char>) -> Seq<char> {
    trim_white_end(s.skip(white_run(s) as int))
}

/// The runs stay within the text.
pub proof fn lemma_runs_fit(s: Seq<char>)
    ensures
        white_run(s) <= s.len(),
        word_run(s) <= s.len(),
    decreases s.len(),
{
    if s.len() > 0 {
        lemma_runs_fit(s.skip(1));
    }
}

/// The end of the white space that starts at `from`.
fn skip_white(x: &[char], from: usize) -> (end: usize)
    requires
        from <= x.len(),
    ensures
        from <= end <= x.len(),
        end == from + white_run(x@.skip(from as int)),
{
    let mut i: usize = from;
    proof {
        lemma_runs_fit(x@.skip(from as int));
    }
    while i < x.len() && white(x[i])
        invariant
            from <= i <= x.len(),
            i + white_run(x@.skip(i as int)) == from + white_run(x@.skip(from as int)),
        decreases x.len() - i,
    {
        assert(x@.skip(i as int).skip(1) == x@.skip(i + 1));
        i = i + 1;
    }
    i
}

/// The end of the word that starts at `from`.
fn skip_word(x: &[char], from: usize) -> (end: usize)
    requires
        from <= x.len(),
    ensures
        from <= end <= x.len(),
        end == from + word_run(x@.skip(from as int)),
{
    let mut i: usize = from;
    proof {
        lemma_runs_fit(x@.skip(from as int));
    }
    while i < x.len() && !white(x[i])
        invariant
            from <= i <= x.len(),
            i + word_run(x@.skip(i as int)) == from + word_run(x@.skip(from as int)),
        decreases x.len() - i,
    {
        assert(x@.skip(i as int).skip(1) == x@.skip(i + 1));
        i = i + 1;
    }
    i
}

/// `s` without the white space at its two ends.
pub fn trim(s: &str) -> (t: String)
    ensures
        t@ == trimmed(s@),
{
    let x = chars_of(s);
    let start: usize = skip_white(x.as_slice(), 0);
    assert(x@.skip(0) == s@);
    let mut n: usize = x.len();
    assert(x@.subrange(start as int, n as int) == s@.skip(start as int));
    while n > start && white(x[n - 1])
        invariant
            start <= n <= x.len(),
            trim_white_end(x@.subrange(start as int, n as int)) == trim_white_end(
                s@.skip(start as int),
            ),
        decreases n,
    {
        assert(x@.subrange(start as int, n as int).drop_last() == x@.subrange(
            start as int,
            n - 1,
        ));
        n = n - 1;
    }
    string_of(vstd::slice::slice_subrange(x.as_slice(), start, n))
}

/// The words of `s`: its longest runs without white space, in order.
pub open spec fn words(s: Seq<char>) -> Seq<Seq<char>>
    decreases s.len(),
    via words_decreases
{
    let rest = s.skip(white_run(s) as int);
    if rest.len() == 0 {
        Seq::empty()
    } else {
        let n = word_run(rest);
        seq![rest.take(n as int)] + words(rest.skip(n as int))
    }
}

#[via_fn]
proof fn words_decreases(s: Seq<char>) {
    lemma_runs_fit(s);
    let rest = s.skip(white_run(s) as int);
    if rest.len() > 0 {
        lemma_white_run_stops(s);
        lemma_runs_fit(rest);
        assert(word_run(rest) > 0);
    }
}

/// What follows the white space at the start of `s` is no white space.
proof fn lemma_white_run_stops(s: Seq<char>)
    requires
        white_run(s) < s.len(),
    ensures
        !is_white(s[white_run(s) as int]),
    decreases s.len(),
{
    if is_white(s[0]) {
        lemma_white_run_stops(s.skip(1));
    }
}

/// The words of `s`, in order.
pub fn split_whitespace(s: &str) -> (found: Vec<String>)
    ensures
        texts_of(found@) == words(s@),
{
    let x = chars_of(s);
    let mut found: Vec<String> = Vec::new();
    let mut i: usize = 0;
    assert(x@.skip(0) == s@);
    assert(texts_of(found@) + words(s@) == words(s@));
    loop
        invariant
            i <= x.len(),
            texts_of(found@) + words(x@.skip(i as int)) == words(s@),
        ensures
            texts_of(found@) == words(s@),
        decreases x.len() - i,
    {
        let start: usize = skip_white(x.as_slice(), i);
        assert(x@.skip(i as int).skip(start - i) == x@.skip(start as int));
        if start == x.len() {
            assert(words(x@.skip(i as int)) == Seq::<Seq<char>>::empty());
            assert(texts_of(found@) + words(x@.skip(i as int)) == texts_of(found@));
            break;
        }
        let end: usize = skip_word(x.as_slice(), start);
        proof {
            lemma_white_run_stops(x@.skip(i as int));
            assert(x@.skip(start as int).skip(end - start) == x@.skip(end as int));
        }
        let word = string_of(vstd::slice::slice_subrange(x.as_slice(), start, end));
        let ghost before = texts_of(found@);
        assert(word@ == x@.skip(start as int).take(end - start));
        found.push(word);
        assert(texts_of(found@) == before.push(word@));
        assert(texts_of(found@) + words(x@.skip(end as int)) == before + (seq![word@] + words(
            x@.skip(end as int),
        )));
        i = end;
    }
    found
}

/// The length of the text before the first `c` in `s`: all of it if there is none.
pub open spec fn run_before(s: Seq<char>, c: char) -> nat
    decreases s.len(),
{
    if s.len() > 0 && s[0] != c {
        1 + run_before(s.skip(1), c)
    } else {
        0
    }
}

/// The text before the first `c` is free of it and stays within the text.
pub proof fn lemma_run_before(s: Seq<char>, c: char)
    ensures
        run_before(s, c) <= s.len(),
        run_before(s, c) < s.len() ==> s[run_before(s, c) as int] == c,
        forall|j: int| 0 <= j < run_before(s, c) ==> s[j] != c,
    decreases s.len(),
{
    if s.len() > 0 && s[0] != c {
        let t = s.skip(1);
        lemma_run_before(t, c);
        assert forall|j: int| 0 <= j < run_before(s, c) implies s[j] != c by {
            if j > 0 {
                assert(s[j] == t[j - 1]);
            }
        }
    }
}

/// The position of the first `c` at or after `from`, or the length of `x`.
pub fn find_from(x: &[char], from: usize, c: char) -> (end: usize)
    requires
        from <= x.len(),
    ensures
        from <= end <= x.len(),
        end == from + run_before(x@.skip(from as int), c),
        forall|j: int| from <= j < end ==> x@[j] != c,
        end < x.len() ==> x@[end as int] == c,
{
    let mut i: usize = from;
    while i < x.len() && x[i] != c
        invariant
            from <= i <= x.len(),
            i + run_before(x@.skip(i as int), c) == from + run_before(x@.skip(from as int), c),
            forall|j: int| from <= j < i ==> x@[j] != c,
        decreases x.len() - i,
    {
        assert(x@.skip(i as int).skip(1) == x@.skip(i + 1));
        i = i + 1;
    }
    i
}

/// The text behind the last `c` in `s`: all of it if there is none.
pub open spec fn after_last(s: Seq<char>, c: char) -> Seq<char>
    decreases s.len(),
{
    if s.len() == 0 || s.last() == c {
        Seq::empty()
    } else {
        after_last(s.drop_last(), c).push(s.last())
    }
}

/// The text behind the last `c` in `s`.
pub fn text_after_last(s: &str, c: char) -> (t: String)
    ensures
        t@ == after_last(s@, c),
{
    let x = chars_of(s);
    let mut n: usize = x.len();
    assert(x@.take(n as int) =~= s@);
    assert(after_last(s@, c) =~= after_last(x@.take(n as int), c) + x@.skip(n as int));
    while n > 0 && x[n - 1] != c
        invariant
            n <= x.len(),
            x@ == s@,
            after_last(s@, c) == after_last(x@.take(n as int), c) + x@.skip(n as int),
        decreases n,
    {
        assert(x@.take(n as int).drop_last() =~= x@.take(n - 1));
        n = n - 1;
        assert(after_last(x@.take(n as int), c) + x@.skip(n as int) =~= after_last(
            x@.take(n + 1),
            c,
        ) + x@.skip(n + 1));
    }
    let end: usize = x.len();
    let t = string_of(vstd::slice::slice_subrange(x.as_slice(), n, end));
    assert(t@ =~= after_last(s@, c));
    t
}

/// The lines of `s`. A line ends at a line feed, or at a carriage return with a
/// line feed behind it, and holds neither; the last line needs no ending.
pub open spec fn lines(s: Seq<char>) -> Seq<Seq<char>>
    decreases s.len(),
    via lines_decreases
{
    if s.len() == 0 {
        Seq::empty()
    } else {
        let n = run_before(s, '\n');
        if n == s.len() {
            seq![s]
        } else {
            let line = s.take(n as int);
            seq![
                if n > 0 && line.last() == '\r' {
                    line.drop_last()
                } else {
                    line
                },
            ] + lines(s.skip(n as int + 1))
        }
    }
}

#[via_fn]
proof fn lines_decreases(s: Seq<char>) {
    lemma_run_before(s, '\n');
}

/// The lines of `s`, in order.
pub fn split_lines(s: &str) -> (found: Vec<String>)
    ensures
        texts_of(found@) == lines(s@),
{
    let x = chars_of(s);
    let mut found: Vec<String> = Vec::new();
    let mut i: usize = 0;
    assert(x@.skip(0) == s@);
    assert(texts_of(found@) + lines(s@) == lines(s@));
    while i < x.len()
        invariant
            i <= x.len(),
            texts_of(found@) + lines(x@.skip(i as int)) == lines(s@),
        decreases x.len() - i,
    {
        let ghost rest = x@.skip(i as int);
        let end: usize = find_from(x.as_slice(), i, '\n');
        let mut stop: usize = end;
        if end < x.len() && end > i && x[end - 1] == '\r' {
            stop = end - 1;
        }
        let line = string_of(vstd::slice::slice_subrange(x.as_slice(), i, stop));
        let ghost before = texts_of(found@);
        proof {
            if end == x.len() {
                assert(line@ == rest);
            } else {
                assert(rest.take(end - i) == x@.subrange(i as int, end as int));
                if end > i {
                    assert(rest.take(end - i).drop_last() == x@.subrange(i as int, end - 1));
                }
                assert(rest.skip(end - i + 1) == x@.skip(end + 1));
            }
        }
        found.push(line);
        assert(texts_of(found@) == before.push(line@));
        if end == x.len() {
            assert(x@.skip(end as int).len() == 0);
            assert(texts_of(found@) + lines(x@.skip(end as int)) == before + lines(rest));
            i = end;
        } else {
            assert(texts_of(found@) + lines(x@.skip(end + 1)) == before + lines(rest));
            i = end + 1;
        }
    }
    assert(texts_of(found@) + lines(x@.skip(i as int)) == texts_of(found@));
    found
}

/// Text without white space at its two ends is a part of the text. It neither starts nor
/// ends with white space, and there is nothing but white space around it.
pub proof fn law_trimmed(s: Seq<char>)
    ensures
        exists|start: int|
            {
                &&& 0 <= start <= s.len() - trimmed(s).len()
                &&& trimmed(s) == #[trigger] s.subrange(start, start + trimmed(s).len())
                &&& forall|i: int| 0 <= i < start ==> is_white(#[trigger] s[i])
                &&& forall|i: int|
                    start + trimmed(s).len() <= i < s.len() ==> is_white(#[trigger] s[i])
            },
        trimmed(s).len() > 0 ==> !is_white(trimmed(s)[0]) && !is_white(trimmed(s).last()),
{
    let n = white_run(s) as int;
    let rest = s.skip(n);
    lemma_runs_fit(s);
    lemma_white_run(s);
    lemma_trim_white_end(rest);
    let t = trimmed(s);
    assert(t =~= s.subrange(n, n + t.len()));
    assert forall|i: int| n + t.len() <= i < s.len() implies is_white(#[trigger] s[i]) by {
        assert(rest[i - n] == s[i]);
    }
    if t.len() > 0 {
        lemma_white_run_stops(s);
    }
}

/// The run of white space at the start of a text is white.
proof fn lemma_white_run(s: Seq<char>)
    ensures
        forall|i: int| 0 <= i < white_run(s) ==> is_white(#[trigger] s[i]),
    decreases s.len(),
{
    if s.len() > 0 && is_white(s[0]) {
        let t = s.skip(1);
        lemma_runs_fit(s);
        lemma_white_run(t);
        assert forall|i: int| 0 <= i < white_run(s) implies is_white(#[trigger] s[i]) by {
            if i > 0 {
                assert(t[i - 1] == s[i]);
            }
        }
    }
}

proof fn lemma_trim_white_end(s: Seq<char>)
    ensures
        trim_white_end(s).len() <= s.len(),
        trim_white_end(s) == s.take(trim_white_end(s).len() as int),
        trim_white_end(s).len() > 0 ==> !is_white(trim_white_end(s).last()),
        forall|i: int| trim_white_end(s).len() <= i < s.len() ==> is_white(#[trigger] s[i]),
    decreases s.len(),
{
    if s.len() > 0 && is_white(s.last()) {
        let t = s.drop_last();
        lemma_trim_white_end(t);
        assert(trim_white_end(s) =~= s.take(trim_white_end(s).len() as int));
        assert forall|i: int| trim_white_end(s).len() <= i < s.len() implies is_white(
            #[trigger] s[i],
        ) by {
            if i < s.len() - 1 {
                assert(t[i] == s[i]);
            }
        }
    } else {
        assert(s.take(s.len() as int) =~= s);
    }
}

/// White space at the start of a text does not matter for its words.
proof fn lemma_words_skip_white(s: Seq<char>)
    requires
        s.len() > 0,
        is_white(s[0]),
    ensures
        words(s) == words(s.skip(1)),
{
    lemma_runs_fit(s.skip(1));
    assert(s.skip(white_run(s) as int) =~= s.skip(1).skip(white_run(s.skip(1)) as int));
}

/// A word ends at white space.
proof fn lemma_word_run_stops(a: Seq<char>, c: char, b: Seq<char>)
    requires
        is_white(c),
    ensures
        word_run(a + seq![c] + b) == word_run(a),
        word_run(a) <= a.len(),
    decreases a.len(),
{
    let s = a + seq![c] + b;
    if a.len() > 0 {
        assert(s[0] == a[0]);
        assert(s.skip(1) =~= a.skip(1) + seq![c] + b);
        lemma_word_run_stops(a.skip(1), c, b);
    } else {
        assert(s[0] == c);
    }
}

/// A text whose characters are no white space is one word.
proof fn lemma_word_run_all(s: Seq<char>)
    requires
        forall|i: int| 0 <= i < s.len() ==> !is_white(#[trigger] s[i]),
    ensures
        word_run(s) == s.len(),
    decreases s.len(),
{
    if s.len() > 0 {
        let t = s.skip(1);
        assert forall|i: int| 0 <= i < t.len() implies !is_white(#[trigger] t[i]) by {
            assert(t[i] == s[i + 1]);
        }
        lemma_word_run_all(t);
    }
}

/// White space parts words: the words of a text are those before it and those behind it.
pub proof fn law_white_space_parts_words(a: Seq<char>, c: char, b: Seq<char>)
    requires
        is_white(c),
    ensures
        words(a + seq![c] + b) == words(a) + words(b),
    decreases a.len(),
{
    let s = a + seq![c] + b;
    if a.len() == 0 {
        assert(s.skip(1) =~= b);
        lemma_words_skip_white(s);
        assert(words(a) + words(b) =~= words(b));
    } else if is_white(a[0]) {
        assert(s.skip(1) =~= a.skip(1) + seq![c] + b);
        lemma_words_skip_white(s);
        lemma_words_skip_white(a);
        law_white_space_parts_words(a.skip(1), c, b);
    } else {
        lemma_word_run_stops(a, c, b);
        let n = word_run(a) as int;
        assert(s[0] == a[0]);
        assert(s.skip(0) =~= s);
        assert(a.skip(0) =~= a);
        assert(s.take(n) =~= a.take(n));
        assert(s.skip(n) =~= a.skip(n) + seq![c] + b);
        assert(n > 0);
        law_white_space_parts_words(a.skip(n), c, b);
        assert(words(s) =~= seq![a.take(n)] + (words(a.skip(n)) + words(b)));
        assert(words(s) =~= words(a) + words(b));
    }
}

/// A text without white space is one word, and nothing has no words.
pub proof fn law_word(s: Seq<char>)
    requires
        forall|i: int| 0 <= i < s.len() ==> !is_white(#[trigger] s[i]),
    ensures
        s.len() > 0 ==> words(s) == seq![s],
        s.len() == 0 ==> words(s) == Seq::<Seq<char>>::empty(),
{
    if s.len() > 0 {
        lemma_word_run_all(s);
        assert(s.skip(0) =~= s);
        assert(s.take(s.len() as int) =~= s);
        assert(s.skip(s.len() as int) =~= Seq::<char>::empty());
        assert(words(s.skip(s.len() as int)) =~= Seq::<Seq<char>>::empty());
        assert(words(s) =~= seq![s]);
    }
}

/// A line feed ends a line, and a carriage return in front of it belongs to it. What is
/// behind the last one is a line, unless it is empty.
pub proof fn law_lines(line: Seq<char>, rest: Seq<char>)
    requires
        forall|i: int| 0 <= i < line.len() ==> #[trigger] line[i] != '\n',
    ensures
        lines(line + seq!['\n'] + rest) == seq![
            if line.len() > 0 && line.last() == '\r' {
                line.drop_last()
            } else {
                line
            },
        ] + lines(rest),
        line.len() > 0 ==> lines(line) == seq![line],
        lines(Seq::empty()) == Seq::<Seq<char>>::empty(),
{
    let s = line + seq!['\n'] + rest;
    let n = run_before(s, '\n') as int;
    lemma_run_before(s, '\n');
    lemma_run_before(line, '\n');
    if n < line.len() {
        assert(s[n] == line[n]);
    } else if n > line.len() {
        assert(s[line.len() as int] == '\n');
    }
    assert(s.take(n) =~= line);
    assert(s.skip(n + 1) =~= rest);
    if run_before(line, '\n') < line.len() {
        assert(line[run_before(line, '\n') as int] == '\n');
    }
}

/// What is behind the last `c` of a text is free of `c`, and is the end of the text: all of
/// it, or what follows a `c`.
pub proof fn law_after_last(s: Seq<char>, c: char)
    ensures
        after_last(s, c).len() <= s.len(),
        after_last(s, c) == s.skip(s.len() - after_last(s, c).len()),
        forall|i: int| 0 <= i < after_last(s, c).len() ==> #[trigger] after_last(s, c)[i] != c,
        after_last(s, c).len() < s.len() ==> s[s.len() - after_last(s, c).len() - 1] == c,
    decreases s.len(),
{
    if s.len() == 0 || s.last() == c {
        assert(s.skip(s.len() as int) =~= Seq::<char>::empty());
    } else {
        let t = s.drop_last();
        law_after_last(t, c);
        assert(after_last(s, c) =~= s.skip(s.len() - after_last(s, c).len()));
    }
}

/// White space is what Unicode calls so: the blank, tabs and line ends, and the blanks of
/// other scripts. Letters, digits and signs of ASCII are none.
pub proof fn law_white_space(c: char)
    ensures
        is_white(' ') && is_white('\t') && is_white('\n') && is_white('\r'),
        0x20 < c as u32 && (c as u32) < 0x7f ==> !is_white(c),
{
}

} // verus!
