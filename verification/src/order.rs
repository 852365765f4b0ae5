//! Which of two texts, paths or numbers comes first.
use crate::paths::{components, path_components, same_path};
use crate::text::{chars_of, same_text, texts_of};
use core::cmp::Ordering;
use vstd::prelude::*;

verus! {

/// The order `first`, or `second` where that tells no difference.
pub open spec fn refined(first: Ordering, second: Ordering) -> Ordering {
    match first {
        Ordering::Equal => second,
        _ => first,
    }
}

/// The order `first`, or `second` where that tells no difference.
pub fn refine(first: Ordering, second: Ordering) -> (order: Ordering)
    ensures
        order == refined(first, second),
{
    match first {
        Ordering::Equal => second,
        Ordering::Less => Ordering::Less,
        Ordering::Greater => Ordering::Greater,
    }
}

/// The order the other way round.
pub open spec fn reversed(order: Ordering) -> Ordering {
    match order {
        Ordering::Less => Ordering::Greater,
        Ordering::Equal => Ordering::Equal,
        Ordering::Greater => Ordering::Less,
    }
}

/// Which of two numbers comes first.
pub open spec fn number_order(a: u64, b: u64) -> Ordering {
    if a < b {
        Ordering::Less
    } else if a == b {
        Ordering::Equal
    } else {
        Ordering::Greater
    }
}

/// Which of two numbers comes first.
pub fn compare_numbers(a: u64, b: u64) -> (order: Ordering)
    ensures
        order == number_order(a, b),
{
    if a < b {
        Ordering::Less
    } else if a == b {
        Ordering::Equal
    } else {
        Ordering::Greater
    }
}

/// Which of two sizes comes first.
pub open spec fn size_order(a: usize, b: usize) -> Ordering {
    if a < b {
        Ordering::Less
    } else if a == b {
        Ordering::Equal
    } else {
        Ordering::Greater
    }
}

/// Which of two sizes comes first.
pub fn compare_sizes(a: usize, b: usize) -> (order: Ordering)
    ensures
        order == size_order(a, b),
{
    if a < b {
        Ordering::Less
    } else if a == b {
        Ordering::Equal
    } else {
        Ordering::Greater
    }
}

/// Which of two flags comes first: the one that is not set.
pub open spec fn flag_order(a: bool, b: bool) -> Ordering {
    if a == b {
        Ordering::Equal
    } else if b {
        Ordering::Less
    } else {
        Ordering::Greater
    }
}

/// Which of two flags comes first.
pub fn compare_flags(a: bool, b: bool) -> (order: Ordering)
    ensures
        order == flag_order(a, b),
{
    if a == b {
        Ordering::Equal
    } else if b {
        Ordering::Less
    } else {
        Ordering::Greater
    }
}

/// Which of two texts comes first, where they agree before `i`.
pub open spec fn text_order_from(a: Seq<char>, b: Seq<char>, i: int) -> Ordering
    decreases a.len() - i,
{
    if i >= a.len() {
        if i >= b.len() {
            Ordering::Equal
        } else {
            Ordering::Less
        }
    } else if i >= b.len() {
        Ordering::Greater
    } else if a[i] < b[i] {
        Ordering::Less
    } else if a[i] > b[i] {
        Ordering::Greater
    } else {
        text_order_from(a, b, i + 1)
    }
}

/// Which of two texts comes first: at the first difference, the one with the smaller
/// character, or the one that ends there.
pub open spec fn text_order(a: Seq<char>, b: Seq<char>) -> Ordering {
    text_order_from(a, b, 0)
}

/// Which of two texts comes first.
pub fn compare_texts(a: &str, b: &str) -> (order: Ordering)
    ensures
        order == text_order(a@, b@),
{
    let x = chars_of(a);
    let y = chars_of(b);
    let mut i: usize = 0;
    while i < x.len() && i < y.len() && x[i] == y[i]
        invariant
            i <= x.len(),
            i <= y.len(),
            x@ == a@,
            y@ == b@,
            text_order(a@, b@) == text_order_from(a@, b@, i + 0),
        decreases x.len() - i,
    {
        i = i + 1;
    }
    if i >= x.len() {
        if i >= y.len() {
            Ordering::Equal
        } else {
            Ordering::Less
        }
    } else if i >= y.len() {
        Ordering::Greater
    } else if x[i] < y[i] {
        Ordering::Less
    } else {
        Ordering::Greater
    }
}

/// What kind of component of a path `c` is: the root comes first, then `.`, then `..`,
/// then names.
pub open spec fn component_rank(c: Seq<char>) -> u64 {
    if c == seq!['/'] {
        0
    } else if c == seq!['.'] {
        1
    } else if c == seq!['.', '.'] {
        2
    } else {
        3
    }
}

/// What kind of component of a path `c` is.
fn rank_of(c: &str) -> (rank: u64)
    ensures
        rank == component_rank(c@),
{
    proof {
        reveal_strlit("/");
        reveal_strlit(".");
        reveal_strlit("..");
        assert("/"@ =~= seq!['/']);
        assert("."@ =~= seq!['.']);
        assert(".."@ =~= seq!['.', '.']);
    }
    if same_text(c, "/") {
        0
    } else if same_text(c, ".") {
        1
    } else if same_text(c, "..") {
        2
    } else {
        3
    }
}

/// Which of two components of paths comes first: by their kind, then as texts.
pub open spec fn component_order(a: Seq<char>, b: Seq<char>) -> Ordering {
    refined(number_order(component_rank(a), component_rank(b)), text_order(a, b))
}

/// Which of two sequences of components comes first, where they agree before `i`.
pub open spec fn components_order_from(a: Seq<Seq<char>>, b: Seq<Seq<char>>, i: int) -> Ordering
    decreases a.len() - i,
{
    if i >= a.len() {
        if i >= b.len() {
            Ordering::Equal
        } else {
            Ordering::Less
        }
    } else if i >= b.len() {
        Ordering::Greater
    } else {
        refined(component_order(a[i], b[i]), components_order_from(a, b, i + 1))
    }
}

/// Which of two paths comes first: at the first difference between their components, the
/// one with the smaller component, or the one that ends there.
pub open spec fn path_order(p: Seq<char>, q: Seq<char>) -> Ordering {
    components_order_from(components(p), components(q), 0)
}

/// Which of two paths comes first.
pub fn compare_paths(p: &str, q: &str) -> (order: Ordering)
    ensures
        order == path_order(p@, q@),
{
    let x = path_components(p);
    let y = path_components(q);
    let ghost a = components(p@);
    let ghost b = components(q@);
    let mut i: usize = 0;
    while i < x.len() && i < y.len()
        invariant
            i <= x.len(),
            i <= y.len(),
            texts_of(x@) == a,
            texts_of(y@) == b,
            a == components(p@),
            b == components(q@),
            path_order(p@, q@) == components_order_from(a, b, i + 0),
        decreases x.len() - i,
    {
        assert(a[i + 0] == x@[i + 0]@ && b[i + 0] == y@[i + 0]@);
        let ranks: Ordering = compare_numbers(rank_of(x[i].as_str()), rank_of(y[i].as_str()));
        let order: Ordering = refine(ranks, compare_texts(x[i].as_str(), y[i].as_str()));
        match order {
            Ordering::Equal => {},
            _ => {
                return order;
            },
        }
        i = i + 1;
    }
    if i < y.len() {
        Ordering::Less
    } else if i < x.len() {
        Ordering::Greater
    } else {
        Ordering::Equal
    }
}

proof fn lemma_text_order(a: Seq<char>, b: Seq<char>, i: int)
    requires
        0 <= i <= a.len(),
        i <= b.len(),
        a.take(i) == b.take(i),
    ensures
        text_order_from(b, a, i) == reversed(text_order_from(a, b, i)),
        text_order_from(a, b, i) == Ordering::Equal <==> a == b,
    decreases a.len() - i,
{
    if i < a.len() && i < b.len() && a[i] == b[i] {
        assert(a.take(i + 1) =~= a.take(i).push(a[i]));
        assert(b.take(i + 1) =~= b.take(i).push(b[i]));
        lemma_text_order(a, b, i + 1);
    } else if i == a.len() && i == b.len() {
        assert(a.take(i) =~= a);
        assert(b.take(i) =~= b);
    }
}

proof fn lemma_text_order_chain(a: Seq<char>, b: Seq<char>, c: Seq<char>, i: int)
    requires
        text_order_from(a, b, i) == Ordering::Less,
        text_order_from(b, c, i) == Ordering::Less,
    ensures
        text_order_from(a, c, i) == Ordering::Less,
    decreases a.len() - i,
{
    if i < a.len() && i < b.len() && i < c.len() && a[i] == b[i] && b[i] == c[i] {
        lemma_text_order_chain(a, b, c, i + 1);
    }
}

/// The order of texts is total: two texts are equal where neither comes first, one of
/// them comes first seen from either side, and what comes before a text comes before
/// all that is behind it.
pub proof fn law_text_order(a: Seq<char>, b: Seq<char>, c: Seq<char>)
    ensures
        text_order(a, b) == Ordering::Equal <==> a == b,
        text_order(b, a) == reversed(text_order(a, b)),
        text_order(a, b) == Ordering::Less && text_order(b, c) == Ordering::Less ==> text_order(
            a,
            c,
        ) == Ordering::Less,
{
    assert(a.take(0) =~= b.take(0));
    lemma_text_order(a, b, 0);
    if text_order(a, b) == Ordering::Less && text_order(b, c) == Ordering::Less {
        lemma_text_order_chain(a, b, c, 0);
    }
}

proof fn lemma_component_order(a: Seq<char>, b: Seq<char>, c: Seq<char>)
    ensures
        component_order(a, b) == Ordering::Equal <==> a == b,
        component_order(b, a) == reversed(component_order(a, b)),
        component_order(a, b) == Ordering::Less && component_order(b, c) == Ordering::Less
            ==> component_order(a, c) == Ordering::Less,
{
    law_text_order(a, b, c);
    law_text_order(b, c, a);
    law_text_order(a, c, b);
}

proof fn lemma_components_order(a: Seq<Seq<char>>, b: Seq<Seq<char>>, i: int)
    requires
        0 <= i <= a.len(),
        i <= b.len(),
        a.take(i) == b.take(i),
    ensures
        components_order_from(b, a, i) == reversed(components_order_from(a, b, i)),
        components_order_from(a, b, i) == Ordering::Equal <==> a == b,
    decreases a.len() - i,
{
    if i < a.len() && i < b.len() {
        lemma_component_order(a[i], b[i], a[i]);
        if a[i] == b[i] {
            assert(a.take(i + 1) =~= a.take(i).push(a[i]));
            assert(b.take(i + 1) =~= b.take(i).push(b[i]));
            lemma_components_order(a, b, i + 1);
        }
    } else if i == a.len() && i == b.len() {
        assert(a.take(i) =~= a);
        assert(b.take(i) =~= b);
    }
}

proof fn lemma_components_order_chain(
    a: Seq<Seq<char>>,
    b: Seq<Seq<char>>,
    c: Seq<Seq<char>>,
    i: int,
)
    requires
        components_order_from(a, b, i) == Ordering::Less,
        components_order_from(b, c, i) == Ordering::Less,
    ensures
        components_order_from(a, c, i) == Ordering::Less,
    decreases a.len() - i,
{
    if i < a.len() && i < b.len() && i < c.len() {
        lemma_component_order(a[i], b[i], c[i]);
        lemma_component_order(b[i], c[i], a[i]);
        lemma_component_order(a[i], c[i], b[i]);
        if a[i] == b[i] && b[i] == c[i] {
            lemma_components_order_chain(a, b, c, i + 1);
        }
    }
}

/// The order of paths is total, and two paths are equal in it where they are the same
/// path.
pub proof fn law_path_order(p: Seq<char>, q: Seq<char>, r: Seq<char>)
    ensures
        path_order(p, q) == Ordering::Equal <==> same_path(p, q),
        path_order(q, p) == reversed(path_order(p, q)),
        path_order(p, q) == Ordering::Less && path_order(q, r) == Ordering::Less ==> path_order(
            p,
            r,
        ) == Ordering::Less,
{
    let a = components(p);
    let b = components(q);
    assert(a.take(0) =~= b.take(0));
    lemma_components_order(a, b, 0);
    if path_order(p, q) == Ordering::Less && path_order(q, r) == Ordering::Less {
        lemma_components_order_chain(a, b, components(r), 0);
    }
}

proof fn lemma_text_order_skips(a: Seq<char>, b: Seq<char>, i: int, n: int)
    requires
        0 <= i <= n <= a.len(),
        n <= b.len(),
        forall|j: int| i <= j < n ==> a[j] == b[j],
    ensures
        text_order_from(a, b, i) == text_order_from(a, b, n),
    decreases n - i,
{
    if i < n {
        lemma_text_order_skips(a, b, i + 1, n);
    }
}

/// The first difference decides which of two texts comes first: the smaller character, or
/// the end.
pub proof fn law_first_character_decides(a: Seq<char>, b: Seq<char>, n: int)
    requires
        0 <= n <= a.len(),
        n <= b.len(),
        forall|j: int| 0 <= j < n ==> a[j] == b[j],
    ensures
        n < a.len() && n < b.len() && a[n] < b[n] ==> text_order(a, b) == Ordering::Less,
        n < a.len() && n < b.len() && a[n] > b[n] ==> text_order(a, b) == Ordering::Greater,
        n == a.len() && n < b.len() ==> text_order(a, b) == Ordering::Less,
        n < a.len() && n == b.len() ==> text_order(a, b) == Ordering::Greater,
{
    lemma_text_order_skips(a, b, 0, n);
}

proof fn lemma_components_order_skips(a: Seq<Seq<char>>, b: Seq<Seq<char>>, i: int, n: int)
    requires
        0 <= i <= n <= a.len(),
        n <= b.len(),
        forall|j: int| i <= j < n ==> a[j] == b[j],
    ensures
        components_order_from(a, b, i) == components_order_from(a, b, n),
    decreases n - i,
{
    if i < n {
        lemma_component_order(a[i], b[i], a[i]);
        lemma_components_order_skips(a, b, i + 1, n);
    }
}

/// The first component that differs decides which of two paths comes first: the root comes
/// before `.`, that before `..`, and that before names, which come as texts. A path comes
/// before what lies in it.
pub proof fn law_first_component_decides(p: Seq<char>, q: Seq<char>, n: int)
    requires
        0 <= n <= components(p).len(),
        n <= components(q).len(),
        forall|j: int| 0 <= j < n ==> components(p)[j] == components(q)[j],
    ensures
        n == components(p).len() && n < components(q).len() ==> path_order(p, q) == Ordering::Less,
        n < components(p).len() && n < components(q).len() ==> {
            let (a, b) = (components(p)[n], components(q)[n]);
            let root = seq!['/'];
            let here = seq!['.'];
            let up = seq!['.', '.'];
            &&& a == root && b != root ==> path_order(p, q) == Ordering::Less
            &&& a == here && b != root && b != here ==> path_order(p, q) == Ordering::Less
            &&& a == up && b != root && b != here && b != up ==> path_order(p, q) == Ordering::Less
            &&& a != root && a != here && a != up && b != root && b != here && b != up && a != b
                ==> path_order(p, q) == text_order(a, b)
        },
{
    let (a, b) = (components(p), components(q));
    lemma_components_order_skips(a, b, 0, n);
    if n < a.len() && n < b.len() {
        law_text_order(a[n], b[n], a[n]);
        assert(seq!['/'][0] != seq!['.'][0]);
        assert(seq!['.'].len() != seq!['.', '.'].len());
        assert(seq!['/'].len() != seq!['.', '.'].len());
    }
}

} // verus!
