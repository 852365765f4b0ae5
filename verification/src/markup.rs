//! Property lists in XML: which of them are harmless to read.
//!
//! The elements of an XML property list that nest are `dict` and `array`. A document
//! is harmless if they are nested no deeper than `MAX_NESTING`, and if all of its dates
//! lie between the years 0 and 9999 of universal time. What stands where is told apart
//! as XML has it: comments, character data, processing instructions, document types
//! and attributes hide the marks in them. What is behind a mistake that ends the
//! reading of a document does not matter.
use crate::bytes::{find, find_byte, is_at, stands_at};
use vstd::prelude::*;

verus! {

/// How deep the collections of a document are nested at most.
pub const MAX_NESTING: usize = 128;

/// The character `<`.
pub const LESS: u8 = 60;

/// The character `>`.
pub const GREATER: u8 = 62;

/// The character `'`.
pub const APOSTROPHE: u8 = 39;

/// The character `"`.
pub const QUOTE: u8 = 34;

/// The character `?`.
pub const QUESTION: u8 = 63;

/// The character `!`.
pub const BANG: u8 = 33;

/// The character `/`.
pub const SLASH: u8 = 47;

/// The character `[`.
pub const BRACKET: u8 = 91;

/// The character `]`.
pub const BRACKET_END: u8 = 93;

/// The character `-`.
pub const DASH: u8 = 45;

/// The character `:`.
pub const COLON: u8 = 58;

/// The character `&`.
pub const AMPERSAND: u8 = 38;

/// The character `+`.
pub const PLUS: u8 = 43;

/// The character `#`.
pub const HASH: u8 = 35;

/// The character `;`.
pub const SEMICOLON: u8 = 59;

/// Stands for a character that matters in no date.
pub const OTHER: u8 = 255;

/// The word `array`.
pub open spec fn array_word() -> Seq<u8> {
    seq![97, 114, 114, 97, 121]
}

/// The word `dict`.
pub open spec fn dict_word() -> Seq<u8> {
    seq![100, 105, 99, 116]
}

/// The word `date`.
pub open spec fn date_word() -> Seq<u8> {
    seq![100, 97, 116, 101]
}

/// Where a processing instruction ends: at the first `>` from `at` on that is behind a
/// `?`, or at the end of `s`.
pub open spec fn instruction_end(s: Seq<u8>, at: int) -> int
    decreases s.len() - at,
{
    if at >= s.len() {
        s.len() as int
    } else if s[at] == GREATER && s[at - 1] == QUESTION {
        at
    } else {
        instruction_end(s, at + 1)
    }
}

/// Where a processing instruction ends, from `skip` bytes behind `at` on.
fn find_instruction_end(s: &[u8], at: usize, skip: usize) -> (i: usize)
    requires
        at <= s@.len(),
        1 <= skip,
    ensures
        i == instruction_end(s@, at + skip),
        at <= i <= s@.len(),
        i < s@.len() ==> s@[i as int] == GREATER,
{
    if skip >= s.len() - at {
        return s.len();
    }
    let mut i: usize = at + skip;
    while i < s.len() && !(s[i] == GREATER && s[i - 1] == QUESTION)
        invariant
            1 <= skip,
            at + skip <= i <= s.len(),
            instruction_end(s@, at + skip) == instruction_end(s@, i as int),
        decreases s.len() - i,
    {
        i = i + 1;
    }
    i
}

/// Where a comment or character data end: at the first `>` from `at` on that is behind
/// two `b`, or at the end of `s`.
pub open spec fn fence_end(s: Seq<u8>, at: int, b: u8) -> int
    decreases s.len() - at,
{
    if at >= s.len() {
        s.len() as int
    } else if s[at] == GREATER && s[at - 1] == b && s[at - 2] == b {
        at
    } else {
        fence_end(s, at + 1, b)
    }
}

/// Where a comment or character data end, from `skip` bytes behind `at` on.
fn find_fence_end(s: &[u8], at: usize, skip: usize, b: u8) -> (i: usize)
    requires
        at <= s@.len(),
        2 <= skip,
    ensures
        i == fence_end(s@, at + skip, b),
        at <= i <= s@.len(),
        i < s@.len() ==> s@[i as int] == GREATER,
{
    if skip >= s.len() - at {
        return s.len();
    }
    let mut i: usize = at + skip;
    while i < s.len() && !(s[i] == GREATER && s[i - 1] == b && s[i - 2] == b)
        invariant
            2 <= skip,
            at + skip <= i <= s.len(),
            fence_end(s@, at + skip, b) == fence_end(s@, i as int, b),
        decreases s.len() - i,
    {
        i = i + 1;
    }
    i
}

/// Where a tag ends: at the first `>` from `at` on outside of quotes, or at the end of
/// `s`. The quotes that are open are `quote`, or none if that is 0.
pub open spec fn tag_end(s: Seq<u8>, at: int, quote: u8) -> int
    decreases s.len() - at,
{
    if at >= s.len() {
        s.len() as int
    } else if quote != 0 {
        tag_end(
            s,
            at + 1,
            if s[at] == quote {
                0
            } else {
                quote
            },
        )
    } else if s[at] == GREATER {
        at
    } else if s[at] == QUOTE || s[at] == APOSTROPHE {
        tag_end(s, at + 1, s[at])
    } else {
        tag_end(s, at + 1, 0)
    }
}

/// Where a tag ends, from `skip` bytes behind `at` on.
fn find_tag_end(s: &[u8], at: usize, skip: usize) -> (i: usize)
    requires
        at <= s@.len(),
    ensures
        i == tag_end(s@, at + skip, 0),
        at <= i <= s@.len(),
        i < s@.len() ==> s@[i as int] == GREATER,
{
    if skip >= s.len() - at {
        return s.len();
    }
    let mut i: usize = at + skip;
    let mut quote: u8 = 0;
    while i < s.len()
        invariant
            at <= i <= s.len(),
            tag_end(s@, at + skip, 0) == tag_end(s@, i as int, quote),
        decreases s.len() - i,
    {
        let b: u8 = s[i];
        if quote != 0 {
            if b == quote {
                quote = 0;
            }
        } else if b == GREATER {
            return i;
        } else if b == QUOTE || b == APOSTROPHE {
            quote = b;
        }
        i = i + 1;
    }
    s.len()
}

/// Where in a document type one is.
#[derive(Debug, Clone, Copy, PartialEq, Eq, Structural)]
pub enum Subset {
    /// Before the declarations in brackets
    Before,
    /// Inside of the brackets
    Inside,
    /// Behind them
    Behind,
}

/// Whether a declaration that stands at `at` can have quotes.
pub open spec fn has_quotes(s: Seq<u8>, at: int) -> bool {
    ||| stands_at(s, at, seq![BANG, 69, 78, 84, 73, 84, 89])
    ||| stands_at(s, at, seq![BANG, 65, 84, 84, 76, 73, 83, 84])
    ||| stands_at(s, at, seq![BANG, 78, 79, 84, 65, 84, 73, 79, 78])
}

/// Where a declaration in a document type ends whose `<` is before `at`.
pub open spec fn declaration_end(s: Seq<u8>, at: int) -> int {
    if at >= s.len() {
        s.len() as int
    } else if s[at] == QUESTION {
        instruction_end(s, at + 2)
    } else if stands_at(s, at, seq![BANG, DASH, DASH]) {
        fence_end(s, at + 5, DASH)
    } else if has_quotes(s, at) {
        tag_end(s, at + 7, 0)
    } else {
        find(s, at, GREATER)
    }
}

/// Where a declaration in a document type ends whose `<` is before `at`.
fn find_declaration_end(s: &[u8], at: usize) -> (i: usize)
    requires
        at <= s@.len(),
    ensures
        i == declaration_end(s@, at as int),
        at <= i <= s@.len(),
        i < s@.len() ==> s@[i as int] == GREATER,
{
    if at >= s.len() {
        return s.len();
    }
    let comment: [u8; 3] = [BANG, DASH, DASH];
    let entity: [u8; 7] = [BANG, 69, 78, 84, 73, 84, 89];
    let attributes: [u8; 8] = [BANG, 65, 84, 84, 76, 73, 83, 84];
    let notation: [u8; 9] = [BANG, 78, 79, 84, 65, 84, 73, 79, 78];
    proof {
        assert(comment@ =~= seq![BANG, DASH, DASH]);
        assert(entity@ =~= seq![BANG, 69, 78, 84, 73, 84, 89]);
        assert(attributes@ =~= seq![BANG, 65, 84, 84, 76, 73, 83, 84]);
        assert(notation@ =~= seq![BANG, 78, 79, 84, 65, 84, 73, 79, 78]);
    }
    if s[at] == QUESTION {
        find_instruction_end(s, at, 2)
    } else if is_at(s, at, comment.as_slice()) {
        find_fence_end(s, at, 5, DASH)
    } else if is_at(s, at, entity.as_slice()) || is_at(s, at, attributes.as_slice()) || is_at(
        s,
        at,
        notation.as_slice(),
    ) {
        find_tag_end(s, at, 7)
    } else {
        find_byte(s, at, GREATER)
    }
}

/// Where a document type ends that goes on at `at`: at the index of its `>`, or at the
/// end of `s`.
pub open spec fn doctype_end(s: Seq<u8>, at: int, subset: Subset) -> int
    decreases s.len() - at,
{
    if at >= s.len() {
        s.len() as int
    } else {
        match subset {
            Subset::Before => if s[at] == GREATER {
                at
            } else if s[at] == BRACKET {
                doctype_end(s, at + 1, Subset::Inside)
            } else if s[at] == QUOTE || s[at] == APOSTROPHE {
                let end = find(s, at + 1, s[at]);
                if end <= at || end >= s.len() {
                    s.len() as int
                } else {
                    doctype_end(s, end + 1, Subset::Before)
                }
            } else {
                doctype_end(s, at + 1, Subset::Before)
            },
            Subset::Inside => if s[at] == BRACKET_END {
                doctype_end(s, at + 1, Subset::Behind)
            } else if s[at] == LESS {
                let end = declaration_end(s, at + 1);
                if end <= at || end >= s.len() {
                    s.len() as int
                } else {
                    doctype_end(s, end + 1, Subset::Inside)
                }
            } else {
                doctype_end(s, at + 1, Subset::Inside)
            },
            Subset::Behind => find(s, at, GREATER),
        }
    }
}

/// Where a document type ends that starts before `at`.
fn find_doctype_end(s: &[u8], at: usize) -> (i: usize)
    requires
        at <= s@.len(),
    ensures
        i == doctype_end(s@, at as int, Subset::Before),
        at <= i <= s@.len(),
        i < s@.len() ==> s@[i as int] == GREATER,
{
    let mut i: usize = at;
    let mut subset: Subset = Subset::Before;
    while i < s.len()
        invariant
            at <= i <= s.len(),
            doctype_end(s@, at as int, Subset::Before) == doctype_end(s@, i as int, subset),
        decreases s.len() - i,
    {
        let b: u8 = s[i];
        match subset {
            Subset::Before => {
                if b == GREATER {
                    return i;
                } else if b == BRACKET {
                    subset = Subset::Inside;
                    i = i + 1;
                } else if b == QUOTE || b == APOSTROPHE {
                    let end: usize = find_byte(s, i + 1, b);
                    if end >= s.len() {
                        return end;
                    }
                    i = end + 1;
                } else {
                    i = i + 1;
                }
            },
            Subset::Inside => {
                if b == BRACKET_END {
                    subset = Subset::Behind;
                    i = i + 1;
                } else if b == LESS {
                    let end: usize = find_declaration_end(s, i + 1);
                    if end >= s.len() {
                        return end;
                    }
                    i = end + 1;
                } else {
                    i = i + 1;
                }
            },
            Subset::Behind => {
                return find_byte(s, i, GREATER);
            },
        }
    }
    s.len()
}

/// Where the markup ends whose `<` is before `at`: at the index of its `>`, or at the
/// end of `s` if the reading of the document ends there.
pub open spec fn markup_end(s: Seq<u8>, at: int) -> int {
    if at >= s.len() {
        s.len() as int
    } else if s[at] == QUESTION {
        instruction_end(s, at + 1)
    } else if s[at] != BANG {
        tag_end(s, at, 0)
    } else if at + 1 >= s.len() {
        s.len() as int
    } else if s[at + 1] == BRACKET {
        fence_end(s, at + 3, BRACKET_END)
    } else if s[at + 1] == DASH {
        fence_end(s, at + 5, DASH)
    } else if s[at + 1] == 68 || s[at + 1] == 100 {
        doctype_end(s, at + 1, Subset::Before)
    } else {
        s.len() as int
    }
}

/// Where the markup ends whose `<` is before `at`.
fn find_markup_end(s: &[u8], at: usize) -> (i: usize)
    requires
        at <= s@.len(),
    ensures
        i == markup_end(s@, at as int),
        at <= i <= s@.len(),
        i < s@.len() ==> s@[i as int] == GREATER,
{
    if at >= s.len() {
        s.len()
    } else if s[at] == QUESTION {
        find_instruction_end(s, at, 1)
    } else if s[at] != BANG {
        find_tag_end(s, at, 0)
    } else if at + 1 >= s.len() {
        s.len()
    } else if s[at + 1] == BRACKET {
        find_fence_end(s, at, 3, BRACKET_END)
    } else if s[at + 1] == DASH {
        find_fence_end(s, at, 5, DASH)
    } else if s[at + 1] == 68 || s[at + 1] == 100 {
        find_doctype_end(s, at + 1)
    } else {
        s.len()
    }
}

/// Whether `b` separates a name from what is behind it.
pub open spec fn is_space(b: u8) -> bool {
    b == 32 || b == 13 || b == 10 || b == 9
}

/// The first white space from `at` on, but not behind `end`.
pub open spec fn name_end(s: Seq<u8>, at: int, end: int) -> int
    decreases end - at,
{
    if at >= end || is_space(s[at]) {
        at
    } else {
        name_end(s, at + 1, end)
    }
}

/// Whether the name from `at` on, without what is before its first colon, is `word`.
/// The name ends at a white space, or at `end`.
pub open spec fn is_named(s: Seq<u8>, at: int, end: int, word: Seq<u8>) -> bool {
    let e = name_end(s, at, end);
    let colon = find(s, at, COLON);
    let start = if colon < e {
        colon + 1
    } else {
        at
    };
    s.subrange(start, e) == word
}

/// Whether the name from `at` on, without what is before its first colon, is `word`.
fn has_name(s: &[u8], at: usize, end: usize, word: &[u8]) -> (yes: bool)
    requires
        at <= end <= s@.len(),
    ensures
        yes == is_named(s@, at as int, end as int, word@),
{
    let mut e: usize = at;
    while e < end && !(s[e] == 32 || s[e] == 13 || s[e] == 10 || s[e] == 9)
        invariant
            at <= e <= end <= s@.len(),
            name_end(s@, at as int, end as int) == name_end(s@, e as int, end as int),
        decreases end - e,
    {
        e = e + 1;
    }
    let colon: usize = find_byte(s, at, COLON);
    let start: usize = if colon < e {
        colon + 1
    } else {
        at
    };
    is_word(s, start, e, word)
}

/// Whether an element with the name from `at` to `end` is a collection.
pub open spec fn is_collection(s: Seq<u8>, at: int, end: int) -> bool {
    is_named(s, at, end, array_word()) || is_named(s, at, end, dict_word())
}

/// Whether an element with the name from `at` to `end` is a collection.
fn names_collection(s: &[u8], at: usize, end: usize) -> (yes: bool)
    requires
        at <= end <= s@.len(),
    ensures
        yes == is_collection(s@, at as int, end as int),
{
    let array: [u8; 5] = [97, 114, 114, 97, 121];
    let dict: [u8; 4] = [100, 105, 99, 116];
    proof {
        assert(array@ =~= array_word());
        assert(dict@ =~= dict_word());
    }
    has_name(s, at, end, array.as_slice()) || has_name(s, at, end, dict.as_slice())
}

/// The text of an element from `at` up to its end tag, without the comments and the like
/// in it. An element that holds another one, or has no end, has none.
pub open spec fn text_from(s: Seq<u8>, at: int) -> Option<Seq<u8>>
    decreases s.len() - at,
{
    let open = find(s, at, LESS);
    let end = markup_end(s, open + 1);
    if open < at || open + 1 >= s.len() {
        None
    } else if s[open + 1] == SLASH {
        Some(s.subrange(at, open))
    } else if (s[open + 1] == BANG || s[open + 1] == QUESTION) && open < end < s.len() {
        match text_from(s, end + 1) {
            Some(text) => Some(s.subrange(at, open) + text),
            None => None,
        }
    } else {
        None
    }
}

/// The text of an element from `from` up to its end tag.
fn read_text(s: &[u8], from: usize) -> (text: Option<Vec<u8>>)
    requires
        from <= s@.len(),
    ensures
        match text {
            Some(t) => text_from(s@, from as int) == Some(t@),
            None => text_from(s@, from as int) is None,
        },
{
    let mut at: usize = from;
    let mut text: Vec<u8> = Vec::new();
    loop
        invariant
            from <= at <= s@.len(),
            text_from(s@, from as int) == (match text_from(s@, at as int) {
                Some(t) => Some(text@ + t),
                None => None,
            }),
        decreases s.len() - at,
    {
        let open: usize = find_byte(s, at, LESS);
        if open >= s.len() || open + 1 >= s.len() {
            return None;
        }
        let ghost before = text@;
        let mut i: usize = at;
        while i < open
            invariant
                at <= i <= open < s@.len(),
                text@ == before + s@.subrange(at as int, i as int),
            decreases open - i,
        {
            text.push(s[i]);
            i = i + 1;
            assert(text@ =~= before + s@.subrange(at as int, i as int));
        }
        assert(before + s@.subrange(at as int, at as int) =~= before);
        let b: u8 = s[open + 1];
        if b == SLASH {
            return Some(text);
        }
        let end: usize = find_markup_end(s, open + 1);
        if (b != BANG && b != QUESTION) || end >= s.len() {
            return None;
        }
        proof {
            if let Some(t) = text_from(s@, end + 1) {
                let chunk = s@.subrange(at as int, open as int);
                assert(before + (chunk + t) =~= (before + chunk) + t);
            }
        }
        at = end + 1;
    }
}

/// The value of a digit, or 16 if `b` is none.
pub open spec fn digit_value(b: u8) -> u8 {
    if 48 <= b <= 57 {
        (b - 48) as u8
    } else if 97 <= b <= 102 {
        (b - 87) as u8
    } else if 65 <= b <= 70 {
        (b - 55) as u8
    } else {
        16
    }
}

/// The character whose number goes on at `at`, if it is an ASCII character. `OTHER` stands
/// for every other one, and for what is no number.
pub open spec fn code_from(t: Seq<u8>, at: int, end: int, radix: u8, value: u8) -> u8
    decreases end - at,
{
    if at >= end {
        value
    } else if digit_value(t[at]) >= radix || value * radix + digit_value(t[at]) >= 128 {
        OTHER
    } else {
        code_from(t, at + 1, end, radix, (value * radix + digit_value(t[at])) as u8)
    }
}

/// The character whose number goes on at `at`.
fn read_code(t: &[u8], at: usize, end: usize, radix: u8) -> (code: u8)
    requires
        at <= end <= t@.len(),
        radix <= 16,
    ensures
        code == code_from(t@, at as int, end as int, radix, 0),
{
    let mut i: usize = at;
    let mut value: u8 = 0;
    while i < end
        invariant
            at <= i <= end <= t@.len(),
            radix <= 16,
            value < 128,
            code_from(t@, at as int, end as int, radix, 0) == code_from(
                t@,
                i as int,
                end as int,
                radix,
                value,
            ),
        decreases end - i,
    {
        let b: u8 = t[i];
        let digit: u8 = if 48 <= b && b <= 57 {
            b - 48
        } else if 97 <= b && b <= 102 {
            b - 87
        } else if 65 <= b && b <= 70 {
            b - 55
        } else {
            16
        };
        proof {
            assert(value * radix <= 128 * 16) by (nonlinear_arith)
                requires
                    value < 128,
                    radix <= 16,
            ;
        }
        if digit >= radix || value as u16 * radix as u16 + digit as u16 >= 128 {
            return OTHER;
        }
        let next: u16 = value as u16 * radix as u16 + digit as u16;
        value = next as u8;
        i = i + 1;
    }
    value
}

/// Whether one of the five names that XML has for a character stands from `at` to `end`.
pub open spec fn is_entity(t: Seq<u8>, at: int, end: int) -> bool {
    let name = t.subrange(at, end);
    ||| name == seq![108u8, 116]
    ||| name == seq![103u8, 116]
    ||| name == seq![97u8, 109, 112]
    ||| name == seq![97u8, 112, 111, 115]
    ||| name == seq![113u8, 117, 111, 116]
}

/// Whether `word` is what stands from `at` to `end`.
fn is_word(t: &[u8], at: usize, end: usize, word: &[u8]) -> (yes: bool)
    requires
        at <= end <= t@.len(),
    ensures
        yes == (t@.subrange(at as int, end as int) == word@),
{
    let yes: bool = end - at == word.len() && is_at(t, at, word);
    proof {
        let name = t@.subrange(at as int, end as int);
        if yes {
            assert(name =~= word@);
        } else if name == word@ {
            assert forall|i: int| 0 <= i < word@.len() implies t@[at + i] == #[trigger] word@[i] by {
                assert(name[i] == t@[at + i]);
            }
        }
    }
    yes
}

/// Whether one of the five names that XML has for a character stands from `at` to `end`.
fn names_character(t: &[u8], at: usize, end: usize) -> (yes: bool)
    requires
        at <= end <= t@.len(),
    ensures
        yes == is_entity(t@, at as int, end as int),
{
    let lt: [u8; 2] = [108, 116];
    let gt: [u8; 2] = [103, 116];
    let amp: [u8; 3] = [97, 109, 112];
    let apos: [u8; 4] = [97, 112, 111, 115];
    let quot: [u8; 4] = [113, 117, 111, 116];
    proof {
        assert(lt@ =~= seq![108u8, 116]);
        assert(gt@ =~= seq![103u8, 116]);
        assert(amp@ =~= seq![97u8, 109, 112]);
        assert(apos@ =~= seq![97u8, 112, 111, 115]);
        assert(quot@ =~= seq![113u8, 117, 111, 116]);
    }
    is_word(t, at, end, lt.as_slice()) || is_word(t, at, end, gt.as_slice()) || is_word(
        t,
        at,
        end,
        amp.as_slice(),
    ) || is_word(t, at, end, apos.as_slice()) || is_word(t, at, end, quot.as_slice())
}

/// What the reference from `at` to `end` stands for. A character that has a name matters
/// in no date, and a name that is not known stands for nothing.
pub open spec fn referred(t: Seq<u8>, at: int, end: int) -> Seq<u8> {
    if at < end && t[at] == HASH {
        if at + 1 < end && t[at + 1] == 120 {
            seq![code_from(t, at + 2, end, 16, 0)]
        } else {
            seq![code_from(t, at + 1, end, 10, 0)]
        }
    } else if is_entity(t, at, end) {
        seq![OTHER]
    } else {
        Seq::empty()
    }
}

/// The text `t` from `at` on, with what its references stand for.
pub open spec fn resolved(t: Seq<u8>, at: int) -> Seq<u8>
    decreases t.len() - at,
{
    if at >= t.len() {
        Seq::empty()
    } else if t[at] != AMPERSAND {
        seq![t[at]] + resolved(t, at + 1)
    } else {
        let end = find(t, at + 1, SEMICOLON);
        if end <= at || end >= t.len() {
            Seq::empty()
        } else {
            referred(t, at + 1, end) + resolved(t, end + 1)
        }
    }
}

/// The text `t` with what its references stand for.
fn resolve(t: &[u8]) -> (text: Vec<u8>)
    ensures
        text@ == resolved(t@, 0),
{
    let mut text: Vec<u8> = Vec::new();
    let mut at: usize = 0;
    assert(text@ + resolved(t@, 0) =~= resolved(t@, 0));
    while at < t.len()
        invariant
            at <= t@.len(),
            text@ + resolved(t@, at as int) == resolved(t@, 0),
        decreases t.len() - at,
    {
        let ghost before = text@;
        if t[at] != AMPERSAND {
            text.push(t[at]);
            at = at + 1;
            assert(text@ + resolved(t@, at as int) =~= before + (seq![t@[at - 1]] + resolved(
                t@,
                at as int,
            )));
        } else {
            let end: usize = find_byte(t, at + 1, SEMICOLON);
            if end >= t.len() {
                assert(before + Seq::<u8>::empty() =~= before);
                return text;
            }
            let ghost what = referred(t@, at + 1, end as int);
            if at + 1 < end && t[at + 1] == HASH {
                if at + 2 < end && t[at + 2] == 120 {
                    text.push(read_code(t, at + 3, end, 16));
                } else {
                    text.push(read_code(t, at + 2, end, 10));
                }
            } else if names_character(t, at + 1, end) {
                text.push(OTHER);
            }
            assert(text@ =~= before + what);
            at = end + 1;
            assert((before + what) + resolved(t@, at as int) =~= before + (what + resolved(
                t@,
                at as int,
            )));
        }
    }
    assert(text@ + Seq::<u8>::empty() =~= text@);
    text
}

/// The minutes since midnight of the time `hh:mm` at `i`.
pub open spec fn minutes_at(t: Seq<u8>, i: int) -> int {
    ((t[i] - 48) * 10 + (t[i + 1] - 48)) * 60 + (t[i + 3] - 48) * 10 + (t[i + 4] - 48)
}

/// The minutes since midnight of the time `hh:mm` at `i`.
fn read_minutes(t: &[u8], i: usize) -> (n: i64)
    requires
        i + 5 <= t@.len(),
    ensures
        n == minutes_at(t@, i as int),
        -40000 < n < 140000,
{
    ((t[i] as i64 - 48) * 10 + (t[i + 1] as i64 - 48)) * 60 + (t[i + 3] as i64 - 48) * 10 + (
    t[i + 4] as i64 - 48)
}

/// The first day that a date can tell.
pub open spec fn first_day() -> Seq<u8> {
    seq![48, 48, 48, 48, DASH, 48, 49, DASH, 48, 49]
}

/// The last day that a date can tell.
pub open spec fn last_day() -> Seq<u8> {
    seq![57, 57, 57, 57, DASH, 49, 50, DASH, 51, 49]
}

/// Whether a date, such as `2024-05-01T10:00:00+02:00`, lies on another day in universal
/// time, where that day is before the first or behind the last one.
pub open spec fn beyond_years(t: Seq<u8>) -> bool {
    let n = t.len() as int;
    n >= 25 && {
        ||| stands_at(t, 0, first_day()) && t[n - 6] == PLUS && minutes_at(t, 11) < minutes_at(
            t,
            n - 5,
        )
        ||| stands_at(t, 0, last_day()) && t[n - 6] == DASH && minutes_at(t, 11) + minutes_at(
            t,
            n - 5,
        ) >= 1440
    }
}

/// Whether a date lies before the first or behind the last day in universal time.
fn is_beyond_years(t: &[u8]) -> (yes: bool)
    ensures
        yes == beyond_years(t@),
{
    let n: usize = t.len();
    if n < 25 {
        return false;
    }
    let first: [u8; 10] = [48, 48, 48, 48, DASH, 48, 49, DASH, 48, 49];
    let last: [u8; 10] = [57, 57, 57, 57, DASH, 49, 50, DASH, 51, 49];
    proof {
        assert(first@ =~= first_day());
        assert(last@ =~= last_day());
    }
    let time: i64 = read_minutes(t, 11);
    let offset: i64 = read_minutes(t, n - 5);
    if is_at(t, 0, first.as_slice()) && t[n - 6] == PLUS && time < offset {
        return true;
    }
    is_at(t, 0, last.as_slice()) && t[n - 6] == DASH && time + offset >= 1440
}

/// Whether the date from `at` on can be read: it lies between the first and the last day,
/// also in universal time. What is no date at all is only a mistake.
pub open spec fn date_is_harmless(s: Seq<u8>, at: int) -> bool {
    match text_from(s, at) {
        Some(t) => !beyond_years(resolved(t, 0)),
        None => true,
    }
}

/// Whether the date from `at` on can be read.
fn check_date(s: &[u8], at: usize) -> (yes: bool)
    requires
        at <= s@.len(),
    ensures
        yes == date_is_harmless(s@, at as int),
{
    match read_text(s, at) {
        Some(t) => {
            let text = resolve(t.as_slice());
            !is_beyond_years(text.as_slice())
        },
        None => true,
    }
}

/// Whether what is left of an XML property list from `at` on, inside `depth`
/// collections, is harmless.
pub open spec fn xml_from(s: Seq<u8>, at: int, depth: nat) -> bool
    decreases s.len() - at,
{
    let open = find(s, at, LESS);
    let end = markup_end(s, open + 1);
    if open < at || open + 1 >= s.len() || end <= open || end >= s.len() {
        true
    } else if s[open + 1] == BANG || s[open + 1] == QUESTION {
        xml_from(s, end + 1, depth)
    } else if s[open + 1] == SLASH {
        xml_from(
            s,
            end + 1,
            if depth > 0 && is_collection(s, open + 2, end) {
                (depth - 1) as nat
            } else {
                depth
            },
        )
    } else {
        let empty = s[end - 1] == SLASH;
        let name_limit = if empty {
            end - 1
        } else {
            end
        };
        if is_collection(s, open + 1, name_limit) {
            depth < MAX_NESTING && xml_from(
                s,
                end + 1,
                if empty {
                    depth
                } else {
                    depth + 1
                },
            )
        } else {
            (is_named(s, open + 1, name_limit, date_word()) && !empty ==> date_is_harmless(
                s,
                end + 1,
            )) && xml_from(s, end + 1, depth)
        }
    }
}

/// Whether an XML property list is harmless.
pub fn is_harmless_xml(s: &[u8]) -> (yes: bool)
    ensures
        yes == xml_from(s@, 0, 0),
{
    let date: [u8; 4] = [100, 97, 116, 101];
    assert(date@ =~= date_word());
    let mut at: usize = 0;
    let mut depth: usize = 0;
    loop
        invariant
            at <= s@.len(),
            depth <= MAX_NESTING,
            date@ == date_word(),
            xml_from(s@, 0, 0) == xml_from(s@, at as int, depth as nat),
        decreases s.len() - at,
    {
        let open: usize = find_byte(s, at, LESS);
        if open >= s.len() || open + 1 >= s.len() {
            return true;
        }
        let end: usize = find_markup_end(s, open + 1);
        if end >= s.len() {
            return true;
        }
        let b: u8 = s[open + 1];
        if b == SLASH {
            if depth > 0 && names_collection(s, open + 2, end) {
                depth = depth - 1;
            }
        } else if b != BANG && b != QUESTION {
            let empty: bool = s[end - 1] == SLASH;
            let limit: usize = if empty {
                end - 1
            } else {
                end
            };
            if names_collection(s, open + 1, limit) {
                if depth >= MAX_NESTING {
                    return false;
                }
                if !empty {
                    depth = depth + 1;
                }
            } else if !empty && has_name(s, open + 1, limit, date.as_slice()) && !check_date(
                s,
                end + 1,
            ) {
                return false;
            }
        }
        at = end + 1;
    }
}

/// Whether a name that may be that of a collection starts behind `at`: `dict` or `array`
/// behind a `<` or a colon.
pub open spec fn collection_starts(s: Seq<u8>, at: int) -> bool {
    &&& 0 <= at < s.len()
    &&& s[at] == 60 || s[at] == 58
    &&& stands_at(s, at + 1, seq![100, 105, 99, 116]) || stands_at(
        s,
        at + 1,
        seq![97, 114, 114, 97, 121],
    )
}

/// How many names from `at` on may be those of collections.
pub open spec fn collections_from(s: Seq<u8>, at: int) -> nat
    decreases s.len() - at,
{
    if at >= s.len() {
        0
    } else {
        collections_from(s, at + 1) + if collection_starts(s, at) {
            1nat
        } else {
            0nat
        }
    }
}

proof fn lemma_find(s: Seq<u8>, at: int, b: u8)
    requires
        0 <= at <= s.len(),
    ensures
        at <= find(s, at, b) <= s.len(),
        find(s, at, b) < s.len() ==> s[find(s, at, b)] == b,
    decreases s.len() - at,
{
    if at < s.len() && s[at] != b {
        lemma_find(s, at + 1, b);
    }
}

proof fn lemma_name_end(s: Seq<u8>, at: int, end: int)
    requires
        at <= end,
    ensures
        at <= name_end(s, at, end) <= end,
    decreases end - at,
{
    if at < end && !is_space(s[at]) {
        lemma_name_end(s, at + 1, end);
    }
}

/// A name starts behind a `<` or a colon.
proof fn lemma_named(s: Seq<u8>, open: int, end: int, word: Seq<u8>)
    requires
        0 <= open < end <= s.len(),
        s[open] == LESS,
        is_named(s, open + 1, end, word),
        word.len() > 0,
    ensures
        exists|i: int|
            open <= i < end && (s[i] == 60 || s[i] == 58) && #[trigger] stands_at(s, i + 1, word),
{
    let e = name_end(s, open + 1, end);
    let colon = find(s, open + 1, COLON);
    lemma_name_end(s, open + 1, end);
    lemma_find(s, open + 1, COLON);
    let start = if colon < e {
        colon + 1
    } else {
        open + 1
    };
    assert(s.subrange(start, e).len() == word.len());
    assert forall|i: int| 0 <= i < word.len() implies s[start + i] == #[trigger] word[i] by {
        assert(s.subrange(start, e)[i] == word[i]);
    }
    assert(stands_at(s, (start - 1) + 1, word));
}

proof fn lemma_collections_from(s: Seq<u8>, a: int, i: int, b: int)
    requires
        0 <= a <= i < b,
    ensures
        collections_from(s, b) <= collections_from(s, a),
        collection_starts(s, i) ==> collections_from(s, b) < collections_from(s, a),
    decreases b - a,
{
    if a < i {
        lemma_collections_from(s, a + 1, i, b);
    } else if a + 1 < b {
        lemma_collections_from(s, a + 1, a + 1, b);
    }
}

proof fn lemma_ordinary_from(s: Seq<u8>, at: int, depth: nat)
    requires
        0 <= at,
        depth + collections_from(s, at) <= 128,
        forall|i: int|
            0 <= i < s.len() && (#[trigger] s[i] == 60 || s[i] == 58) ==> !stands_at(
                s,
                i + 1,
                seq![100, 97, 116, 101],
            ),
    ensures
        xml_from(s, at, depth),
    decreases s.len() - at,
{
    let open = find(s, at, LESS);
    let end = markup_end(s, open + 1);
    if at < s.len() {
        lemma_find(s, at, LESS);
    }
    if open < at || open + 1 >= s.len() || end <= open || end >= s.len() {
    } else {
        lemma_collections_from(s, at, at, end + 1);
        let empty = s[end - 1] == SLASH;
        let limit = if empty {
            end - 1
        } else {
            end
        };
        lemma_ordinary_from(s, end + 1, depth);
        if depth > 0 {
            lemma_ordinary_from(s, end + 1, (depth - 1) as nat);
        }
        if s[open + 1] != BANG && s[open + 1] != QUESTION && s[open + 1] != SLASH {
            if limit <= open {
                assert(s[open] == SLASH);
            }
            if is_collection(s, open + 1, limit) {
                let word = if is_named(s, open + 1, limit, array_word()) {
                    array_word()
                } else {
                    dict_word()
                };
                assert(word =~= seq![100, 105, 99, 116] || word =~= seq![97, 114, 114, 97, 121]);
                lemma_named(s, open, limit, word);
                let i = choose|i: int|
                    open <= i < limit && (s[i] == 60 || s[i] == 58) && #[trigger] stands_at(
                        s,
                        i + 1,
                        word,
                    );
                lemma_collections_from(s, at, i, end + 1);
                lemma_ordinary_from(s, end + 1, depth + 1);
            } else if is_named(s, open + 1, limit, date_word()) {
                assert(date_word() =~= seq![100, 97, 116, 101]);
                lemma_named(s, open, limit, date_word());
            }
        }
    }
}

/// An ordinary document is harmless, however long it is: one that has no dates, and no more
/// than 128 names of collections.
pub proof fn law_ordinary_xml_is_harmless(s: Seq<u8>)
    requires
        collections_from(s, 0) <= 128,
        forall|i: int|
            0 <= i < s.len() && (#[trigger] s[i] == 60 || s[i] == 58) ==> !stands_at(
                s,
                i + 1,
                seq![100, 97, 116, 101],
            ),
    ensures
        xml_from(s, 0, 0),
{
    lemma_ordinary_from(s, 0, 0);
}

/// A tag without quotes ends at its first `>`.
proof fn lemma_tag_end(s: Seq<u8>, at: int, end: int)
    requires
        0 <= at <= end < s.len(),
        s[end] == GREATER,
        forall|i: int|
            at <= i < end ==> #[trigger] s[i] != GREATER && s[i] != QUOTE && s[i] != APOSTROPHE,
    ensures
        tag_end(s, at, 0) == end,
    decreases end - at,
{
    if at < end {
        lemma_tag_end(s, at + 1, end);
    }
}

/// A name of letters ends where its tag does.
proof fn lemma_letters(s: Seq<u8>, at: int, end: int, word: Seq<u8>)
    requires
        0 <= at <= end < s.len(),
        forall|i: int| at <= i < end ==> 97 <= #[trigger] s[i] <= 122,
    ensures
        is_named(s, at, end, word) <==> s.subrange(at, end) == word,
{
    lemma_name_end_letters(s, at, end);
    lemma_find(s, at, COLON);
    let colon = find(s, at, COLON);
    if colon < end {
        assert(97 <= s[colon] <= 122);
    }
}

proof fn lemma_name_end_letters(s: Seq<u8>, at: int, end: int)
    requires
        0 <= at <= end < s.len(),
        forall|i: int| at <= i < end ==> 97 <= #[trigger] s[i] <= 122,
    ensures
        name_end(s, at, end) == end,
    decreases end - at,
{
    if at < end {
        assert(97 <= s[at] <= 122);
        lemma_name_end_letters(s, at + 1, end);
    }
}

/// What stands in a tag with a name of letters, from the name on.
proof fn lemma_tag(s: Seq<u8>, at: int, name: Seq<u8>, word: Seq<u8>)
    requires
        0 <= at,
        stands_at(s, at, name),
        at + name.len() < s.len(),
        forall|i: int| 0 <= i < name.len() ==> 97 <= #[trigger] name[i] <= 122,
    ensures
        is_named(s, at, at + name.len(), word) <==> name == word,
{
    assert(s.subrange(at, at + name.len()) =~= name);
    assert forall|i: int| at <= i < at + name.len() implies 97 <= #[trigger] s[i] <= 122 by {
        assert(s[at + (i - at)] == name[i - at]);
    }
    lemma_letters(s, at, at + name.len(), word);
}

/// Text outside of tags does not matter.
pub proof fn law_text_is_harmless(s: Seq<u8>, at: int, depth: nat)
    requires
        0 <= at < s.len(),
        s[at] != 60,
    ensures
        xml_from(s, at, depth) == xml_from(s, at + 1, depth),
{
    lemma_find(s, at + 1, LESS);
    assert(find(s, at, LESS) == find(s, at + 1, LESS));
}

/// A tag that opens a collection is one level more, if there are less than 128; one that
/// closes a collection is one level less. Other tags do not matter, but for those of dates.
pub proof fn law_tags_open_and_close(s: Seq<u8>, at: int, name: Seq<u8>, depth: nat)
    requires
        0 <= at,
        name.len() > 0,
        forall|i: int| 0 <= i < name.len() ==> 97 <= #[trigger] name[i] <= 122,
    ensures
        ({
            let n = name.len() as int;
            let dict = seq![100u8, 105, 99, 116];
            let array = seq![97u8, 114, 114, 97, 121];
            let date = seq![100u8, 97, 116, 101];
            let nests = name == dict || name == array;
            let opens = at + n + 1 < s.len() && s[at] == 60 && stands_at(s, at + 1, name) && s[at
                + 1 + n] == 62;
            let closes = at + n + 2 < s.len() && s[at] == 60 && s[at + 1] == 47 && stands_at(
                s,
                at + 2,
                name,
            ) && s[at + 2 + n] == 62;
            &&& opens && nests ==> (xml_from(s, at, depth) <==> depth < 128 && xml_from(
                s,
                at + n + 2,
                depth + 1,
            ))
            &&& opens && !nests && name != date ==> xml_from(s, at, depth) == xml_from(
                s,
                at + n + 2,
                depth,
            )
            &&& closes && nests ==> xml_from(s, at, depth) == xml_from(
                s,
                at + n + 3,
                if depth > 0 {
                    (depth - 1) as nat
                } else {
                    0
                },
            )
            &&& closes && !nests ==> xml_from(s, at, depth) == xml_from(s, at + n + 3, depth)
        }),
{
    let n = name.len() as int;
    let dict = seq![100u8, 105, 99, 116];
    let array = seq![97u8, 114, 114, 97, 121];
    let date = seq![100u8, 97, 116, 101];
    assert(dict =~= dict_word() && array =~= array_word() && date =~= date_word());
    if at + n + 1 < s.len() && s[at] == 60 && stands_at(s, at + 1, name) && s[at + 1 + n] == 62 {
        assert forall|i: int| at + 1 <= i < at + 1 + n implies 97 <= #[trigger] s[i] <= 122 by {
            assert(s[at + 1 + (i - at - 1)] == name[i - at - 1]);
        }
        assert(97 <= s[at + 1] <= 122);
        assert(97 <= s[at + n] <= 122);
        lemma_tag_end(s, at + 1, at + 1 + n);
        lemma_tag(s, at + 1, name, dict_word());
        lemma_tag(s, at + 1, name, array_word());
        lemma_tag(s, at + 1, name, date_word());
        assert(find(s, at, LESS) == at);
        assert(markup_end(s, at + 1) == at + 1 + n);
    }
    if at + n + 2 < s.len() && s[at] == 60 && s[at + 1] == 47 && stands_at(s, at + 2, name) && s[at
        + 2 + n] == 62 {
        assert forall|i: int| at + 2 <= i < at + 2 + n implies 97 <= #[trigger] s[i] <= 122 by {
            assert(s[at + 2 + (i - at - 2)] == name[i - at - 2]);
        }
        lemma_tag_end(s, at + 1, at + 2 + n);
        lemma_tag(s, at + 2, name, dict_word());
        lemma_tag(s, at + 2, name, array_word());
        assert(find(s, at, LESS) == at);
        assert(markup_end(s, at + 1) == at + 2 + n);
    }
}

/// A text without references stands for itself.
proof fn lemma_resolved(t: Seq<u8>, at: int)
    requires
        0 <= at <= t.len(),
        forall|i: int| 0 <= i < t.len() ==> #[trigger] t[i] != AMPERSAND,
    ensures
        resolved(t, at) == t.skip(at),
    decreases t.len() - at,
{
    if at < t.len() {
        lemma_resolved(t, at + 1);
        assert(seq![t[at]] + t.skip(at + 1) =~= t.skip(at));
    }
    assert(resolved(t, at) =~= t.skip(at));
}

proof fn lemma_find_at(s: Seq<u8>, at: int, b: u8, p: int)
    requires
        0 <= at <= p < s.len(),
        s[p] == b,
        forall|i: int| at <= i < p ==> #[trigger] s[i] != b,
    ensures
        find(s, at, b) == p,
    decreases p - at,
{
    if at < p {
        lemma_find_at(s, at + 1, b, p);
    }
}

/// A date does not matter, unless it is the first day of the year 0 or the last day of the
/// year 9999.
pub proof fn law_ordinary_dates_are_harmless(s: Seq<u8>, at: int, p: int, depth: nat)
    requires
        0 <= at,
        at + 6 <= p,
        p + 1 < s.len(),
        stands_at(s, at, seq![60, 100, 97, 116, 101, 62]),
        s[p] == 60,
        s[p + 1] == 47,
        forall|i: int| at + 6 <= i < p ==> #[trigger] s[i] != 60 && s[i] != 38,
        !stands_at(
            s.subrange(at + 6, p),
            0,
            seq![48, 48, 48, 48, 45, 48, 49, 45, 48, 49],
        ),
        !stands_at(
            s.subrange(at + 6, p),
            0,
            seq![57, 57, 57, 57, 45, 49, 50, 45, 51, 49],
        ),
    ensures
        xml_from(s, at, depth) == xml_from(s, at + 6, depth),
{
    let tag = seq![60u8, 100, 97, 116, 101, 62];
    let name = seq![100u8, 97, 116, 101];
    let t = s.subrange(at + 6, p);
    assert(s[at + 0] == tag[0] && s[at + 1] == tag[1] && s[at + 2] == tag[2] && s[at + 3] == tag[3]
        && s[at + 4] == tag[4] && s[at + 5] == tag[5]);
    assert(stands_at(s, at + 1, name)) by {
        assert forall|i: int| 0 <= i < name.len() implies s[at + 1 + i] == #[trigger] name[i] by {
            assert(s[at + (i + 1)] == tag[i + 1]);
        }
    }
    lemma_tag_end(s, at + 1, at + 5);
    lemma_tag(s, at + 1, name, dict_word());
    lemma_tag(s, at + 1, name, array_word());
    lemma_tag(s, at + 1, name, date_word());
    assert(name =~= date_word());
    assert(name[1] != dict_word()[1]);
    assert(name.len() != array_word().len());
    lemma_find_at(s, at + 6, LESS, p);
    assert(text_from(s, at + 6) == Some(t));
    assert forall|i: int| 0 <= i < t.len() implies #[trigger] t[i] != AMPERSAND by {
        assert(t[i] == s[at + 6 + i]);
    }
    lemma_resolved(t, 0);
    assert(t.skip(0) =~= t);
    assert(first_day() =~= seq![48, 48, 48, 48, 45, 48, 49, 45, 48, 49]);
    assert(last_day() =~= seq![57, 57, 57, 57, 45, 49, 50, 45, 51, 49]);
    assert(find(s, at, LESS) == at);
    assert(markup_end(s, at + 1) == at + 5);
}

} // verus!
