//! Binary property lists: which of them are harmless to read.
//!
//! A binary property list is a table of objects that refer to each other. A document is
//! harmless if its collections are nested no deeper than `MAX_NESTING`, if none of its
//! dates is before the year 0, and if it does not unfold to more than `MAX_UNFOLDING`
//! references and collections for each of its bytes. A reference that leads nowhere is
//! only a mistake.
use crate::bytes::{number_at, read_number};
use crate::markup::MAX_NESTING;
use vstd::prelude::*;

verus! {

/// How many references and collections there may be for each byte of a document.
pub const MAX_UNFOLDING: usize = 64;

/// The bits of the floating-point number of seconds from 2001 back to the start of the
/// year 0. Those of larger negative numbers are larger.
pub const YEAR_ZERO_BITS: u64 = 0xc22d_6788_8900_0000;

/// The length of what ends a document: its trailer.
pub const TRAILER: usize = 32;

/// What the trailer of a document tells.
#[derive(Debug, Clone, Copy, PartialEq, Eq, Structural)]
pub struct Trailer {
    /// Where the trailer starts
    pub start: usize,
    /// How many bytes an entry in the table of objects has
    pub offset_size: usize,
    /// How many bytes a reference has
    pub ref_size: usize,
    /// How many objects there are
    pub count: u64,
    /// Where the table of objects is
    pub table: u64,
}

/// Whether a number can have `n` bytes.
pub open spec fn is_width(n: u8) -> bool {
    n == 1 || n == 2 || n == 3 || n == 4 || n == 8
}

impl Trailer {
    /// The table of objects lies before the trailer.
    pub open spec fn fits(self, s: Seq<u8>) -> bool {
        &&& self.start + TRAILER == s.len()
        &&& is_width(self.offset_size as u8)
        &&& is_width(self.ref_size as u8)
        &&& self.offset_size <= 8
        &&& self.ref_size <= 8
        &&& self.table + self.count * self.offset_size <= self.start
    }
}

/// The trailer of a document, if it has a proper one.
pub open spec fn trailer_of(s: Seq<u8>) -> Option<Trailer> {
    let start = s.len() - TRAILER;
    let t = Trailer {
        start: start as usize,
        offset_size: s[start + 6] as usize,
        ref_size: s[start + 7] as usize,
        count: number_at(s, start + 8, 8) as u64,
        table: number_at(s, start + 24, 8) as u64,
    };
    if start >= 0 && t.fits(s) {
        Some(t)
    } else {
        None
    }
}

/// The trailer of a document, if it has a proper one.
fn read_trailer(s: &[u8]) -> (t: Option<Trailer>)
    ensures
        t == trailer_of(s@),
        t matches Some(t) ==> t.fits(s@),
{
    if s.len() < TRAILER {
        return None;
    }
    let start: usize = s.len() - TRAILER;
    let offset_size: u8 = s[start + 6];
    let ref_size: u8 = s[start + 7];
    let t = Trailer {
        start,
        offset_size: offset_size as usize,
        ref_size: ref_size as usize,
        count: read_number(s, start + 8, 8),
        table: read_number(s, start + 24, 8),
    };
    let widths: bool = (offset_size == 1 || offset_size == 2 || offset_size == 3 || offset_size == 4
        || offset_size == 8) && (ref_size == 1 || ref_size == 2 || ref_size == 3 || ref_size == 4
        || ref_size == 8);
    if !widths {
        return None;
    }
    proof {
        assert(t.count * t.offset_size <= t.count * 8) by (nonlinear_arith)
            requires
                t.offset_size <= 8,
        ;
    }
    let end: u128 = t.table as u128 + t.count as u128 * t.offset_size as u128;
    if end <= start as u128 {
        Some(t)
    } else {
        None
    }
}

/// What an object is, as far as it matters.
#[derive(Debug, Clone, Copy, PartialEq, Eq, Structural)]
pub enum Object {
    /// It refers to no other one
    Single,
    /// It is a date before the year 0
    Ancient,
    /// It refers to `count` others, the first of which is told at `at`
    Collection { at: usize, count: usize },
}

/// How many members the collection at `at` has, and where its references start.
pub open spec fn length_at(s: Seq<u8>, at: int) -> Option<(nat, int)> {
    let low = (s[at] % 16) as nat;
    if low < 15 {
        Some((low, at + 1))
    } else if at + 1 >= s.len() {
        None
    } else {
        let width: nat = if s[at + 1] % 4 == 0 {
            1
        } else if s[at + 1] % 4 == 1 {
            2
        } else if s[at + 1] % 4 == 2 {
            4
        } else {
            8
        };
        if at + 2 + width > s.len() {
            None
        } else {
            Some((number_at(s, at + 2, width), at + 2 + width))
        }
    }
}

/// How many members the collection at `at` has, and where its references start.
fn read_length(s: &[u8], at: usize) -> (r: Option<(u64, usize)>)
    requires
        at < s@.len(),
    ensures
        match r {
            Some((n, from)) => {
                &&& length_at(s@, at as int) == Some((n as nat, from as int))
                &&& at < from <= s@.len()
            },
            None => length_at(s@, at as int) is None,
        },
{
    let low: u8 = s[at] % 16;
    if low < 15 {
        return Some((low as u64, at + 1));
    }
    if at + 1 >= s.len() {
        return None;
    }
    let kind: u8 = s[at + 1] % 4;
    let width: usize = if kind == 0 {
        1
    } else if kind == 1 {
        2
    } else if kind == 2 {
        4
    } else {
        8
    };
    if width > s.len() - at - 2 {
        return None;
    }
    Some((read_number(s, at + 2, width), at + 2 + width))
}

/// The object that stands at `at`.
pub open spec fn object_at(s: Seq<u8>, t: Trailer, at: int) -> Object {
    let kind = s[at] / 16;
    if s[at] == 0x33 {
        if at + 9 <= s.len() && number_at(s, at + 1, 8) > YEAR_ZERO_BITS {
            Object::Ancient
        } else {
            Object::Single
        }
    } else if kind == 10 || kind == 13 {
        match length_at(s, at) {
            Some((n, from)) => {
                let count = if kind == 13 {
                    2 * n
                } else {
                    n
                };
                if at + count * t.ref_size <= t.start && from + count * t.ref_size <= s.len() {
                    Object::Collection { at: from as usize, count: count as usize }
                } else {
                    Object::Single
                }
            },
            None => Object::Single,
        }
    } else {
        Object::Single
    }
}

/// The object number `n`.
pub open spec fn object_number(s: Seq<u8>, t: Trailer, n: nat) -> Object {
    let at = number_at(s, t.table + n * t.offset_size, t.offset_size as nat);
    if n < t.count && at < t.start {
        object_at(s, t, at as int)
    } else {
        Object::Single
    }
}

/// Whether the references of a collection lie in the document.
pub open spec fn lies_in(s: Seq<u8>, t: Trailer, at: int, count: nat) -> bool {
    0 <= at && at + count * t.ref_size <= s.len()
}

/// The object that stands at `at`.
fn read_object_at(s: &[u8], t: Trailer, at: usize) -> (object: Object)
    requires
        t.fits(s@),
        at < t.start,
    ensures
        object == object_at(s@, t, at as int),
        object matches Object::Collection { at: from, count } ==> lies_in(
            s@,
            t,
            from as int,
            count as nat,
        ),
{
    let kind: u8 = s[at] / 16;
    if s[at] == 0x33 {
        if 9 <= s.len() - at && read_number(s, at + 1, 8) > YEAR_ZERO_BITS {
            return Object::Ancient;
        }
        return Object::Single;
    }
    if kind != 10 && kind != 13 {
        return Object::Single;
    }
    match read_length(s, at) {
        None => Object::Single,
        Some((n, from)) => {
            let count: u128 = if kind == 13 {
                2 * n as u128
            } else {
                n as u128
            };
            proof {
                assert(count * t.ref_size <= count * 8) by (nonlinear_arith)
                    requires
                        t.ref_size <= 8,
                ;
                assert(count <= count * t.ref_size) by (nonlinear_arith)
                    requires
                        t.ref_size >= 1,
                ;
            }
            let bytes: u128 = count * t.ref_size as u128;
            if at as u128 + bytes <= t.start as u128 && from as u128 + bytes <= s.len() as u128 {
                Object::Collection { at: from, count: count as usize }
            } else {
                Object::Single
            }
        },
    }
}

/// The object number `n`.
fn read_object(s: &[u8], t: Trailer, n: u64) -> (object: Object)
    requires
        t.fits(s@),
    ensures
        object == object_number(s@, t, n as nat),
        object matches Object::Collection { at: from, count } ==> lies_in(
            s@,
            t,
            from as int,
            count as nat,
        ),
{
    if n >= t.count {
        return Object::Single;
    }
    proof {
        assert(n * t.offset_size + t.offset_size <= t.count * t.offset_size) by (nonlinear_arith)
            requires
                n + 1 <= t.count,
        ;
        assert(n * t.offset_size >= 0) by (nonlinear_arith);
    }
    let place: usize = t.table as usize + n as usize * t.offset_size;
    let at: u64 = read_number(s, place, t.offset_size);
    if at < t.start as u64 {
        read_object_at(s, t, at as usize)
    } else {
        Object::Single
    }
}

/// Whether what is left to be read is harmless: `open` are the references that are left of
/// each open collection, where they are and how many, and `budget` is how much may
/// still unfold.
pub open spec fn unfolds(s: Seq<u8>, t: Trailer, open: Seq<(usize, usize)>, budget: nat) -> bool
    decreases budget,
{
    if open.len() == 0 {
        true
    } else if budget == 0 {
        false
    } else {
        let (at, count) = open.last();
        let outer = open.drop_last();
        let less = (budget - 1) as nat;
        if count == 0 {
            unfolds(s, t, outer, less)
        } else {
            let rest = outer.push(((at + t.ref_size) as usize, (count - 1) as usize));
            match object_number(s, t, number_at(s, at as int, t.ref_size as nat)) {
                Object::Single => unfolds(s, t, rest, less),
                Object::Ancient => false,
                Object::Collection { at: from, count: n } => rest.len() < MAX_NESTING && unfolds(
                    s,
                    t,
                    rest.push((from, n)),
                    less,
                ),
            }
        }
    }
}

/// Whether a binary property list is harmless. One without a proper trailer is only a
/// mistake.
pub open spec fn binary_is_harmless(s: Seq<u8>) -> bool {
    match trailer_of(s) {
        None => true,
        Some(t) => match object_number(s, t, number_at(s, s.len() - 16, 8)) {
            Object::Single => true,
            Object::Ancient => false,
            Object::Collection { at, count } => unfolds(
                s,
                t,
                seq![(at, count)],
                s.len() * MAX_UNFOLDING as nat,
            ),
        },
    }
}

/// Whether all of `open` lie in the document.
spec fn all_lie_in(s: Seq<u8>, t: Trailer, open: Seq<(usize, usize)>) -> bool {
    forall|i: int|
        0 <= i < open.len() ==> lies_in(
            s,
            t,
            (#[trigger] open[i]).0 as int,
            open[i].1 as nat,
        )
}

/// Whether the collection whose references are at `at` unfolds to something harmless.
fn check_unfolding(s: &[u8], t: Trailer, at: usize, count: usize) -> (yes: bool)
    requires
        t.fits(s@),
        lies_in(s@, t, at as int, count as nat),
    ensures
        yes == unfolds(s@, t, seq![(at, count)], s@.len() * MAX_UNFOLDING as nat),
{
    let mut open: Vec<(usize, usize)> = Vec::new();
    open.push((at, count));
    let mut budget: u128 = s.len() as u128 * MAX_UNFOLDING as u128;
    assert(open@ =~= seq![(at, count)]);
    let ghost goal = unfolds(s@, t, open@, budget as nat);
    while open.len() > 0
        invariant
            t.fits(s@),
            s@.len() == s.len(),
            goal == unfolds(s@, t, seq![(at, count)], s@.len() * MAX_UNFOLDING as nat),
            open@.len() <= MAX_NESTING,
            all_lie_in(s@, t, open@),
            goal == unfolds(s@, t, open@, budget as nat),
        decreases budget,
    {
        if budget == 0 {
            return false;
        }
        let ghost before = open@;
        budget = budget - 1;
        let last: usize = open.len() - 1;
        let (from, left): (usize, usize) = open[last];
        assert(lies_in(s@, t, before[last as int].0 as int, before[last as int].1 as nat));
        let _top = open.pop();
        assert(open@ =~= before.drop_last());
        if left > 0 {
            proof {
                assert(left * t.ref_size == (left - 1) * t.ref_size + t.ref_size)
                    by (nonlinear_arith);
                assert((left - 1) * t.ref_size >= 0) by (nonlinear_arith)
                    requires
                        left >= 1,
                ;
            }
            let number: u64 = read_number(s, from, t.ref_size);
            open.push((from + t.ref_size, left - 1));
            let ghost rest = open@;
            assert(rest =~= before.drop_last().push(
                ((from + t.ref_size) as usize, (left - 1) as usize),
            ));
            match read_object(s, t, number) {
                Object::Single => {},
                Object::Ancient => {
                    return false;
                },
                Object::Collection { at: inner, count: n } => {
                    if open.len() >= MAX_NESTING {
                        return false;
                    }
                    open.push((inner, n));
                },
            }
        }
    }
    true
}

/// Whether a binary property list is harmless.
pub fn is_harmless_binary(s: &[u8]) -> (yes: bool)
    ensures
        yes == binary_is_harmless(s@),
{
    let len: usize = s.len();
    match read_trailer(s) {
        None => true,
        Some(t) => match read_object(s, t, read_number(s, len - 16, 8)) {
            Object::Single => true,
            Object::Ancient => false,
            Object::Collection { at, count } => check_unfolding(s, t, at, count),
        },
    }
}

/// The reference number `j` of those from `at` on.
pub open spec fn reference(s: Seq<u8>, t: Trailer, at: int, j: int) -> nat {
    number_at(s, at + j * t.ref_size, t.ref_size as nat)
}

proof fn lemma_next_reference(s: Seq<u8>, t: Trailer, at: int, j: int)
    ensures
        reference(s, t, at + t.ref_size, j) == reference(s, t, at, j + 1),
        reference(s, t, at, 0) == number_at(s, at, t.ref_size as nat),
{
    assert((j + 1) * t.ref_size == j * t.ref_size + t.ref_size) by (nonlinear_arith);
    assert(0 * t.ref_size == 0);
}

proof fn lemma_flat(s: Seq<u8>, t: Trailer, at: usize, count: usize, budget: nat)
    requires
        s.len() <= usize::MAX,
        at + count * t.ref_size <= s.len(),
        budget > count,
        forall|j: int|
            0 <= j < count ==> object_number(s, t, #[trigger] reference(s, t, at as int, j))
                == Object::Single,
    ensures
        unfolds(s, t, seq![(at, count)], budget),
    decreases count,
{
    let open = seq![(at, count)];
    let outer = open.drop_last();
    assert(outer =~= Seq::<(usize, usize)>::empty());
    if count == 0 {
        assert(unfolds(s, t, outer, (budget - 1) as nat));
    } else {
        lemma_next_reference(s, t, at as int, 0);
        assert(object_number(s, t, reference(s, t, at as int, 0)) == Object::Single);
        let less = (count - 1) as usize;
        assert(count * t.ref_size == less * t.ref_size + t.ref_size && less * t.ref_size >= 0)
            by (nonlinear_arith)
            requires
                count == less + 1,
        ;
        let next = (at + t.ref_size) as usize;
        assert forall|j: int| 0 <= j < less implies object_number(
            s,
            t,
            #[trigger] reference(s, t, next as int, j),
        ) == Object::Single by {
            lemma_next_reference(s, t, at as int, j);
            assert(object_number(s, t, reference(s, t, at as int, j + 1)) == Object::Single);
        }
        lemma_flat(s, t, next, less, (budget - 1) as nat);
        assert(outer.push((next, less)) =~= seq![(next, less)]);
        assert(open.last() == (at, count));
    }
}

/// A document without a proper trailer is harmless, and so is one whose collection holds no
/// further ones and no date before the year 0, however long it is.
pub proof fn law_flat_binary_is_harmless(s: Seq<u8>)
    requires
        0 < s.len() <= usize::MAX,
        trailer_of(s) matches Some(t) ==> match object_number(s, t, number_at(s, s.len() - 16, 8)) {
            Object::Single => true,
            Object::Ancient => false,
            Object::Collection { at, count } => at + count * t.ref_size <= s.len() && forall|j: int|
                0 <= j < count ==> object_number(s, t, #[trigger] reference(s, t, at as int, j))
                    == Object::Single,
        },
    ensures
        binary_is_harmless(s),
{
    if let Some(t) = trailer_of(s) {
        if let Object::Collection { at, count } = object_number(
            s,
            t,
            number_at(s, s.len() - 16, 8),
        ) {
            assert(count <= count * t.ref_size) by (nonlinear_arith)
                requires
                    t.ref_size >= 1,
            ;
            lemma_flat(s, t, at, count, s.len() * MAX_UNFOLDING as nat);
        }
    }
}

} // verus!
