//! Searching in bytes.
use vstd::prelude::*;

verus! {

/// The first position of `b` in `s` from `at` on, or the length of `s`.
pub open spec fn find(s: Seq<u8>, at: int, b: u8) -> int
    decreases s.len() - at,
{
    if at >= s.len() {
        s.len() as int
    } else if s[at] == b {
        at
    } else {
        find(s, at + 1, b)
    }
}

/// The first position of `b` in `s` from `at` on, or the length of `s`.
pub fn find_byte(s: &[u8], at: usize, b: u8) -> (i: usize)
    requires
        at <= s@.len(),
    ensures
        i == find(s@, at as int, b),
        at <= i <= s@.len(),
        i < s@.len() ==> s@[i as int] == b,
{
    let mut i: usize = at;
    while i < s.len() && s[i] != b
        invariant
            at <= i <= s.len(),
            find(s@, at as int, b) == find(s@, i as int, b),
        decreases s.len() - i,
    {
        i = i + 1;
    }
    i
}

/// Whether `word` stands in `s` at `at`.
pub open spec fn stands_at(s: Seq<u8>, at: int, word: Seq<u8>) -> bool {
    at + word.len() <= s.len() && forall|i: int|
        0 <= i < word.len() ==> s[at + i] == #[trigger] word[i]
}

/// Whether `word` stands in `s` at `at`.
pub fn is_at(s: &[u8], at: usize, word: &[u8]) -> (yes: bool)
    requires
        at <= s@.len(),
    ensures
        yes == stands_at(s@, at as int, word@),
{
    if word.len() > s.len() - at {
        return false;
    }
    let mut i: usize = 0;
    while i < word.len()
        invariant
            i <= word.len(),
            at + word@.len() <= s.len(),
            forall|j: int| 0 <= j < i ==> s@[at + j] == #[trigger] word@[j],
        decreases word.len() - i,
    {
        if s[at + i] != word[i] {
            return false;
        }
        i = i + 1;
    }
    true
}

/// The number that `n` bytes from `at` on make up, the most significant first.
pub open spec fn number_at(s: Seq<u8>, at: int, n: nat) -> nat
    decreases n,
{
    if n == 0 {
        0
    } else {
        number_at(s, at, (n - 1) as nat) * 256 + s[at + n - 1] as nat
    }
}

/// 256 to the power of `n`.
spec fn range_of(n: nat) -> nat
    decreases n,
{
    if n == 0 {
        1
    } else {
        256 * range_of((n - 1) as nat)
    }
}

proof fn lemma_number_at(s: Seq<u8>, at: int, n: nat)
    ensures
        number_at(s, at, n) < range_of(n),
    decreases n,
{
    if n > 0 {
        lemma_number_at(s, at, (n - 1) as nat);
    }
}

proof fn lemma_range_of(n: nat)
    requires
        n <= 8,
    ensures
        range_of(n) <= 0x1_0000_0000_0000_0000,
{
    reveal_with_fuel(range_of, 9);
}

/// The number that `n` bytes from `at` on make up, the most significant first.
pub fn read_number(s: &[u8], at: usize, n: usize) -> (value: u64)
    requires
        n <= 8,
        at + n <= s@.len(),
    ensures
        value == number_at(s@, at as int, n as nat),
{
    let mut value: u64 = 0;
    let mut i: usize = 0;
    while i < n
        invariant
            i <= n <= 8,
            at + n <= s.len(),
            value == number_at(s@, at as int, i as nat),
        decreases n - i,
    {
        proof {
            lemma_number_at(s@, at as int, (i + 1) as nat);
            lemma_range_of((i + 1) as nat);
        }
        value = value * 256 + s[at + i] as u64;
        i = i + 1;
    }
    value
}

} // verus!
