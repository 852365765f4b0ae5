//! Property lists in the old text style, such as `{ key = (a, "b"); }`: which of them are
//! harmless to read.
//!
//! A document is harmless if its arrays and dictionaries are nested no deeper than
//! `MAX_NESTING`. What is behind the first value of a document does not matter.
use crate::bytes::{find, find_byte};
use crate::markup::{APOSTROPHE, MAX_NESTING, QUOTE, SLASH};
use vstd::prelude::*;

verus! {

/// The character `*`.
pub const STAR: u8 = 42;

/// The character `\`.
pub const BACKSLASH: u8 = 92;

/// Whether `b` ends a text without quotes.
pub open spec fn ends_plain(b: u8) -> bool {
    b == 32 || b == 41 || b == 13 || b == 9 || b == 59 || b == 44
}

/// Whether nothing is told by `b`: it is white space, `,`, `;` or `=`.
pub open spec fn is_filler(b: u8) -> bool {
    b == 32 || b == 13 || b == 9 || b == 10 || b == 44 || b == 59 || b == 61
}

/// Where a text without quotes ends.
pub open spec fn plain_end(s: Seq<u8>, at: int) -> int
    decreases s.len() - at,
{
    if at >= s.len() {
        s.len() as int
    } else if ends_plain(s[at]) {
        at
    } else {
        plain_end(s, at + 1)
    }
}

/// Where a text without quotes ends.
fn find_plain_end(s: &[u8], at: usize) -> (i: usize)
    requires
        at <= s@.len(),
    ensures
        i == plain_end(s@, at as int),
        at <= i <= s@.len(),
{
    let mut i: usize = at;
    while i < s.len() && !(s[i] == 32 || s[i] == 41 || s[i] == 13 || s[i] == 9 || s[i] == 59
        || s[i] == 44)
        invariant
            at <= i <= s@.len(),
            plain_end(s@, at as int) == plain_end(s@, i as int),
        decreases s.len() - i,
    {
        i = i + 1;
    }
    i
}

/// Where a text in quotes ends: behind the first `quote` that no backslash stands
/// before.
pub open spec fn quoted_end(s: Seq<u8>, at: int, quote: u8) -> int
    decreases s.len() - at,
{
    if at >= s.len() {
        s.len() as int
    } else if s[at] == quote {
        at + 1
    } else if s[at] == BACKSLASH {
        if at + 1 >= s.len() {
            s.len() as int
        } else {
            quoted_end(s, at + 2, quote)
        }
    } else {
        quoted_end(s, at + 1, quote)
    }
}

/// Where a text in quotes ends.
fn find_quoted_end(s: &[u8], at: usize, quote: u8) -> (i: usize)
    requires
        at <= s@.len(),
    ensures
        i == quoted_end(s@, at as int, quote),
        at <= i <= s@.len(),
{
    let mut i: usize = at;
    while i < s.len()
        invariant
            at <= i <= s@.len(),
            quoted_end(s@, at as int, quote) == quoted_end(s@, i as int, quote),
        decreases s.len() - i,
    {
        if s[i] == quote {
            return i + 1;
        }
        if s[i] == BACKSLASH {
            i = i + 1;
            if i >= s.len() {
                return s.len();
            }
        }
        i = i + 1;
    }
    s.len()
}

/// Where a comment ends that goes on at `at`: behind a star and a slash. The byte behind
/// a star that ends nothing is passed over.
pub open spec fn comment_end(s: Seq<u8>, at: int) -> int
    decreases s.len() - at,
{
    if at >= s.len() {
        s.len() as int
    } else if s[at] != STAR {
        comment_end(s, at + 1)
    } else if at + 1 >= s.len() {
        s.len() as int
    } else if s[at + 1] == SLASH {
        at + 2
    } else {
        comment_end(s, at + 2)
    }
}

/// Where a comment ends that goes on at `at`.
fn find_comment_end(s: &[u8], at: usize) -> (i: usize)
    requires
        at <= s@.len(),
    ensures
        i == comment_end(s@, at as int),
        at <= i <= s@.len(),
{
    let mut i: usize = at;
    while i < s.len()
        invariant
            at <= i <= s@.len(),
            comment_end(s@, at as int) == comment_end(s@, i as int),
        decreases s.len() - i,
    {
        if s[i] == STAR {
            i = i + 1;
            if i >= s.len() {
                return s.len();
            }
            if s[i] == SLASH {
                return i + 1;
            }
        }
        i = i + 1;
    }
    s.len()
}

/// What stands at a place in a document, and where it ends.
#[derive(Debug, Clone, Copy, PartialEq, Eq, Structural)]
pub enum Token {
    /// A collection starts
    Open,
    /// A collection ends
    Close,
    /// Nothing is told up to here
    Filler(usize),
    /// A text
    Text(usize),
}

/// What stands at `at`.
pub open spec fn token_at(s: Seq<u8>, at: int) -> Token {
    let b = s[at];
    if b == 40 || b == 123 {
        Token::Open
    } else if b == 41 || b == 125 {
        Token::Close
    } else if b == QUOTE || b == APOSTROPHE {
        Token::Text(quoted_end(s, at + 1, b) as usize)
    } else if is_filler(b) {
        Token::Filler((at + 1) as usize)
    } else if b == SLASH && at + 1 < s.len() && s[at + 1] == SLASH {
        Token::Filler(find(s, at + 1, 10) as usize)
    } else if b == SLASH && at + 1 < s.len() && s[at + 1] == STAR {
        Token::Filler(comment_end(s, at + 1) as usize)
    } else {
        Token::Text(plain_end(s, at + 1) as usize)
    }
}

/// What stands at `at`.
fn read_token(s: &[u8], at: usize) -> (token: Token)
    requires
        at < s@.len(),
    ensures
        token == token_at(s@, at as int),
        match token {
            Token::Filler(end) => at < end <= s@.len(),
            Token::Text(end) => at < end <= s@.len(),
            _ => true,
        },
{
    let b: u8 = s[at];
    if b == 40 || b == 123 {
        Token::Open
    } else if b == 41 || b == 125 {
        Token::Close
    } else if b == QUOTE || b == APOSTROPHE {
        Token::Text(find_quoted_end(s, at + 1, b))
    } else if b == 32 || b == 13 || b == 9 || b == 10 || b == 44 || b == 59 || b == 61 {
        Token::Filler(at + 1)
    } else if b == SLASH && at + 1 < s.len() && s[at + 1] == SLASH {
        Token::Filler(find_byte(s, at + 1, 10))
    } else if b == SLASH && at + 1 < s.len() && s[at + 1] == STAR {
        Token::Filler(find_comment_end(s, at + 1))
    } else {
        Token::Text(find_plain_end(s, at + 1))
    }
}

/// Whether what is left of a property list from `at` on, inside `depth` collections, is
/// harmless.
pub open spec fn text_list_from(s: Seq<u8>, at: int, depth: nat) -> bool
    decreases s.len() - at,
{
    if at >= s.len() {
        true
    } else {
        match token_at(s, at) {
            Token::Open => depth < MAX_NESTING && text_list_from(s, at + 1, depth + 1),
            Token::Close => depth <= 1 || text_list_from(s, at + 1, (depth - 1) as nat),
            Token::Filler(end) => !(at < end <= s.len()) || text_list_from(s, end as int, depth),
            Token::Text(end) => depth == 0 || !(at < end <= s.len())
                || text_list_from(s, end as int, depth),
        }
    }
}

/// Whether a property list in the old style is harmless.
pub fn is_harmless_text(s: &[u8]) -> (yes: bool)
    ensures
        yes == text_list_from(s@, 0, 0),
{
    let mut at: usize = 0;
    let mut depth: usize = 0;
    while at < s.len()
        invariant
            at <= s@.len(),
            depth <= MAX_NESTING,
            text_list_from(s@, 0, 0) == text_list_from(s@, at as int, depth as nat),
        decreases s.len() - at,
    {
        match read_token(s, at) {
            Token::Open => {
                if depth >= MAX_NESTING {
                    return false;
                }
                depth = depth + 1;
                at = at + 1;
            },
            Token::Close => {
                if depth <= 1 {
                    return true;
                }
                depth = depth - 1;
                at = at + 1;
            },
            Token::Filler(end) => {
                at = end;
            },
            Token::Text(end) => {
                if depth == 0 {
                    return true;
                }
                at = end;
            },
        }
    }
    true
}

/// How many brackets from `at` on may open a collection.
pub open spec fn brackets_from(s: Seq<u8>, at: int) -> nat
    decreases s.len() - at,
{
    if at >= s.len() {
        0
    } else {
        brackets_from(s, at + 1) + if s[at] == 40 || s[at] == 123 {
            1nat
        } else {
            0nat
        }
    }
}

proof fn lemma_brackets_from(s: Seq<u8>, a: int, b: int)
    requires
        0 <= a <= b,
    ensures
        brackets_from(s, b) <= brackets_from(s, a),
    decreases b - a,
{
    if a < b {
        lemma_brackets_from(s, a + 1, b);
    }
}

proof fn lemma_few_brackets(s: Seq<u8>, at: int, depth: nat)
    requires
        0 <= at,
        depth + brackets_from(s, at) <= 128,
    ensures
        text_list_from(s, at, depth),
    decreases s.len() - at,
{
    if at < s.len() {
        match token_at(s, at) {
            Token::Open => {
                lemma_few_brackets(s, at + 1, depth + 1);
            },
            Token::Close => {
                if depth > 1 {
                    lemma_few_brackets(s, at + 1, (depth - 1) as nat);
                }
            },
            Token::Filler(end) => {
                if at < end <= s.len() {
                    lemma_brackets_from(s, at, end as int);
                    lemma_few_brackets(s, end as int, depth);
                }
            },
            Token::Text(end) => {
                if at < end <= s.len() {
                    lemma_brackets_from(s, at, end as int);
                    lemma_few_brackets(s, end as int, depth);
                }
            },
        }
    }
}

/// A document with no more than 128 brackets that open a collection is harmless, however
/// long it is.
pub proof fn law_few_brackets_are_harmless(s: Seq<u8>)
    requires
        brackets_from(s, 0) <= 128,
    ensures
        text_list_from(s, 0, 0),
{
    lemma_few_brackets(s, 0, 0);
}

} // verus!
