//! Text as Windows holds it: UTF-16, ended by a NUL.
use crate::text::chars_of;
use vstd::prelude::*;

verus! {

/// Whether `n` is the number of a character.
pub open spec fn is_scalar(n: int) -> bool {
    0 <= n < 0xd800 || 0xe000 <= n < 0x11_0000
}

/// `char::from_u32` gives the character with this number, or none if the
/// number is none of a character.
pub assume_specification[ char::from_u32 ](i: u32) -> (c: Option<char>)
    ensures
        c == (if is_scalar(i as int) {
            Some(i as char)
        } else {
            None
        }),
;

/// The number of a character is in range.
proof fn lemma_scalar(c: char)
    ensures
        is_scalar(c as int),
{
}

/// The first half of a surrogate pair.
pub open spec fn is_high(u: u16) -> bool {
    0xd800 <= u < 0xdc00
}

/// The second half of a surrogate pair.
pub open spec fn is_low(u: u16) -> bool {
    0xdc00 <= u < 0xe000
}

/// The number of the character that a surrogate pair stands for.
pub open spec fn paired(high: u16, low: u16) -> int {
    0x1_0000 + (high - 0xd800) * 0x400 + (low - 0xdc00)
}

/// The text that `units` encodes. Half a surrogate pair gives a replacement character.
pub open spec fn decoded(units: Seq<u16>) -> Seq<char>
    decreases units.len(),
{
    if units.len() == 0 {
        Seq::empty()
    } else if !is_high(units[0]) && !is_low(units[0]) {
        seq![units[0] as char] + decoded(units.skip(1))
    } else if is_high(units[0]) && units.len() > 1 && is_low(units[1]) {
        seq![paired(units[0], units[1]) as char] + decoded(units.skip(2))
    } else {
        seq!['\u{fffd}'] + decoded(units.skip(1))
    }
}

/// The code units of one character.
pub open spec fn char_units(c: char) -> Seq<u16> {
    let n = c as int;
    if n < 0x1_0000 {
        seq![n as u16]
    } else {
        seq![
            (0xd800 + (n - 0x1_0000) / 0x400) as u16,
            (0xdc00 + (n - 0x1_0000) % 0x400) as u16,
        ]
    }
}

/// The code units of a text.
pub open spec fn encoded(s: Seq<char>) -> Seq<u16>
    decreases s.len(),
{
    if s.len() == 0 {
        Seq::empty()
    } else {
        encoded(s.drop_last()) + char_units(s.last())
    }
}

proof fn lemma_encoded_first(s: Seq<char>)
    requires
        s.len() > 0,
    ensures
        encoded(s) == char_units(s[0]) + encoded(s.skip(1)),
    decreases s.len(),
{
    if s.len() == 1 {
        assert(s.drop_last() =~= Seq::<char>::empty());
        assert(s.skip(1) =~= Seq::<char>::empty());
        assert(encoded(s) =~= char_units(s[0]) + encoded(s.skip(1)));
    } else {
        lemma_encoded_first(s.drop_last());
        assert(s.drop_last().skip(1) =~= s.skip(1).drop_last());
        assert(encoded(s) =~= char_units(s[0]) + encoded(s.skip(1)));
    }
}

/// Decoding gives back every text that was encoded.
pub proof fn law_utf16_round_trip(s: Seq<char>)
    ensures
        decoded(encoded(s)) == s,
    decreases s.len(),
{
    if s.len() > 0 {
        let u = encoded(s);
        let head = char_units(s[0]);
        lemma_encoded_first(s);
        law_utf16_round_trip(s.skip(1));
        assert(u.skip(head.len() as int) =~= encoded(s.skip(1)));
        let n = s[0] as int;
        lemma_scalar(s[0]);
        if n >= 0x1_0000 {
            assert(u[0] == 0xd800 + (n - 0x1_0000) / 0x400);
            assert(u[1] == 0xdc00 + (n - 0x1_0000) % 0x400);
            assert(paired(u[0], u[1]) == n);
        }
        assert(decoded(u) =~= s);
    }
}

/// The text that `units` encodes.
pub fn decode(units: &[u16]) -> (s: String)
    ensures
        s@ == decoded(units@),
{
    let mut s = String::new();
    let mut i: usize = 0;
    assert(units@.skip(0) =~= units@);
    assert(s@ + decoded(units@) =~= decoded(units@));
    while i < units.len()
        invariant
            i <= units.len(),
            s@ + decoded(units@.skip(i as int)) == decoded(units@),
        decreases units.len() - i,
    {
        let ghost rest = units@.skip(i as int);
        let ghost before = s@;
        let u: u16 = units[i];
        let pair: bool = 0xd800 <= u && u < 0xdc00 && i + 1 < units.len() && 0xdc00 <= units[i + 1]
            && units[i + 1] < 0xe000;
        let n: u32 = if pair {
            0x1_0000 + (u as u32 - 0xd800) * 0x400 + (units[i + 1] as u32 - 0xdc00)
        } else {
            u as u32
        };
        match char::from_u32(n) {
            Some(c) => s.push(c),
            None => s.push('\u{fffd}'),
        }
        if pair {
            i = i + 2;
            assert(rest.skip(2) =~= units@.skip(i as int));
        } else {
            i = i + 1;
            assert(rest.skip(1) =~= units@.skip(i as int));
        }
        assert(s@ + decoded(units@.skip(i as int)) =~= before + decoded(rest));
    }
    assert(units@.skip(i as int) =~= Seq::<u16>::empty());
    assert(s@ + decoded(units@.skip(i as int)) =~= s@);
    s
}

/// The code units of `s` and a NUL.
pub fn wide_nul(s: &str) -> (units: Vec<u16>)
    ensures
        units@ == encoded(s@).push(0),
{
    let chars = chars_of(s);
    let mut units: Vec<u16> = Vec::new();
    let mut i: usize = 0;
    while i < chars.len()
        invariant
            i <= chars.len(),
            units@ == encoded(chars@.take(i as int)),
        decreases chars.len() - i,
    {
        let ghost before = units@;
        let n: u32 = chars[i] as u32;
        proof {
            lemma_scalar(chars@[i as int]);
        }
        if n < 0x1_0000 {
            units.push(n as u16);
        } else {
            units.push((0xd800 + (n - 0x1_0000) / 0x400) as u16);
            units.push((0xdc00 + (n - 0x1_0000) % 0x400) as u16);
        }
        assert(units@ =~= before + char_units(chars@[i as int]));
        i = i + 1;
        assert(chars@.take(i as int).drop_last() =~= chars@.take(i - 1));
    }
    assert(chars@.take(i as int) =~= chars@);
    units.push(0);
    units
}

/// How many code units come before the first NUL, if there is one.
pub open spec fn nul_at(units: Seq<u16>) -> nat
    decreases units.len(),
{
    if units.len() == 0 || units[0] == 0 {
        0
    } else {
        1 + nul_at(units.skip(1))
    }
}

/// No code unit before the first NUL is a NUL, and one follows unless the units end.
pub proof fn lemma_nul_at(units: Seq<u16>)
    ensures
        nul_at(units) <= units.len(),
        forall|j: int| 0 <= j < nul_at(units) ==> units[j] != 0,
        nul_at(units) < units.len() ==> units[nul_at(units) as int] == 0,
    decreases units.len(),
{
    if units.len() > 0 && units[0] != 0 {
        let rest = units.skip(1);
        lemma_nul_at(rest);
        assert forall|j: int| 0 <= j < nul_at(units) implies units[j] != 0 by {
            if j > 0 {
                assert(rest[j - 1] == units[j]);
            }
        }
    }
}

/// How many code units from `from` on come before the first NUL, if there is one.
pub fn find_nul(units: &[u16], from: usize) -> (n: usize)
    requires
        from <= units@.len(),
    ensures
        n == nul_at(units@.skip(from as int)),
        from + n <= units@.len(),
{
    let mut i: usize = from;
    proof {
        lemma_nul_at(units@.skip(from as int));
    }
    while i < units.len() && units[i] != 0
        invariant
            from <= i <= units.len(),
            nul_at(units@.skip(from as int)) == (i - from) + nul_at(units@.skip(i as int)),
        decreases units.len() - i,
    {
        assert(units@.skip(i as int).skip(1) =~= units@.skip(i + 1));
        i = i + 1;
    }
    i - from
}

/// The text before the first NUL of a buffer.
pub open spec fn nul_ended(units: Seq<u16>) -> Seq<char> {
    decoded(units.take(nul_at(units) as int))
}

/// The text before the first NUL of a buffer, or in all of it if it holds no NUL.
pub fn decode_wide_nul_string(buf: &[u16]) -> (s: String)
    ensures
        s@ == nul_ended(buf@),
{
    assert(buf@.skip(0) =~= buf@);
    let end: usize = find_nul(buf, 0);
    assert(buf@.subrange(0, end as int) =~= buf@.take(end as int));
    decode(vstd::slice::slice_subrange(buf, 0, end))
}

/// Only the character NUL has a NUL among its code units.
proof fn lemma_units_nonzero(c: char)
    requires
        c != '\0',
    ensures
        forall|j: int| 0 <= j < char_units(c).len() ==> char_units(c)[j] != 0,
{
}

/// A text without a NUL has no NUL among its code units.
proof fn lemma_encoded_nonzero(s: Seq<char>)
    requires
        forall|i: int| 0 <= i < s.len() ==> s[i] != '\0',
    ensures
        forall|j: int| 0 <= j < encoded(s).len() ==> encoded(s)[j] != 0,
    decreases s.len(),
{
    if s.len() > 0 {
        lemma_encoded_nonzero(s.drop_last());
        lemma_units_nonzero(s.last());
        let n = encoded(s.drop_last()).len() as int;
        assert forall|j: int| 0 <= j < encoded(s).len() implies encoded(s)[j] != 0 by {
            if j < n {
                assert(encoded(s)[j] == encoded(s.drop_last())[j]);
            } else {
                assert(encoded(s)[j] == char_units(s.last())[j - n]);
            }
        }
    }
}

/// Where no code unit is a NUL, the first NUL is the one at the end.
proof fn lemma_nul_at_end(units: Seq<u16>)
    requires
        forall|j: int| 0 <= j < units.len() ==> units[j] != 0,
    ensures
        nul_at(units.push(0)) == units.len(),
{
    lemma_nul_at(units.push(0));
    let n = nul_at(units.push(0)) as int;
    if n < units.len() {
        assert(units.push(0)[n] == units[n]);
    } else if n > units.len() {
        assert(units.push(0)[units.len() as int] == 0);
    }
}

/// A text that was handed to Windows, and holds no NUL, is read back unchanged.
pub proof fn law_wide_nul_round_trip(s: Seq<char>)
    requires
        forall|i: int| 0 <= i < s.len() ==> s[i] != '\0',
    ensures
        nul_ended(encoded(s).push(0)) == s,
{
    lemma_encoded_nonzero(s);
    lemma_nul_at_end(encoded(s));
    law_utf16_round_trip(s);
    assert(encoded(s).push(0).take(encoded(s).len() as int) =~= encoded(s));
}

/// The entries of a list of NUL-ended strings, one behind the other. An empty
/// entry ends the list, and so does one without a NUL.
pub open spec fn multi_string(units: Seq<u16>) -> Seq<Seq<u16>>
    decreases units.len(),
{
    let n = nul_at(units);
    if n == 0 || n >= units.len() {
        Seq::empty()
    } else {
        seq![units.take(n as int)] + multi_string(units.skip(n as int + 1))
    }
}

/// The entries of a list of NUL-ended strings, without the NULs.
pub fn split_multi_string(units: &[u16]) -> (entries: Vec<Vec<u16>>)
    ensures
        entries@.map_values(|e: Vec<u16>| e@) == multi_string(units@),
{
    let mut entries: Vec<Vec<u16>> = Vec::new();
    let mut at: usize = 0;
    assert(units@.skip(0) =~= units@);
    assert(entries@.map_values(|e: Vec<u16>| e@) + multi_string(units@) =~= multi_string(units@));
    loop
        invariant
            at <= units.len(),
            entries@.map_values(|e: Vec<u16>| e@) + multi_string(units@.skip(at as int))
                == multi_string(units@),
        decreases units.len() - at,
    {
        let ghost rest = units@.skip(at as int);
        let ghost before = entries@.map_values(|e: Vec<u16>| e@);
        let n: usize = find_nul(units, at);
        if n == 0 || at + n >= units.len() {
            assert(before + multi_string(rest) =~= before);
            return entries;
        }
        let entry = vstd::slice::slice_to_vec(vstd::slice::slice_subrange(units, at, at + n));
        assert(units@.subrange(at as int, at + n) =~= rest.take(n as int));
        assert(rest.skip(n + 1) =~= units@.skip(at + n + 1));
        entries.push(entry);
        assert(entries@.map_values(|e: Vec<u16>| e@) =~= before.push(rest.take(n as int)));
        at = at + n + 1;
        assert(before.push(rest.take(n as int)) + multi_string(units@.skip(at as int)) =~= before
            + multi_string(rest));
    }
}

/// A list of NUL-ended strings has its first string, and then those of the rest. It ends at
/// an empty string, and where no NUL is left.
pub proof fn law_multi_string(entry: Seq<u16>, rest: Seq<u16>)
    requires
        forall|i: int| 0 <= i < entry.len() ==> #[trigger] entry[i] != 0,
    ensures
        entry.len() > 0 ==> multi_string(entry + seq![0u16] + rest) == seq![entry] + multi_string(
            rest,
        ),
        multi_string(entry).len() == 0,
        multi_string(seq![0u16] + rest).len() == 0,
{
    let all = entry + seq![0u16] + rest;
    lemma_nul_at(all);
    lemma_nul_at(entry);
    lemma_nul_at(seq![0u16] + rest);
    let n = nul_at(all) as int;
    assert(all[entry.len() as int] == 0);
    if n < entry.len() {
        assert(all[n] == entry[n]);
    }
    assert(all.take(n) =~= entry);
    assert(all.skip(n + 1) =~= rest);
    if nul_at(entry) < entry.len() {
        assert(entry[nul_at(entry) as int] == 0);
    }
    assert((seq![0u16] + rest)[0] == 0);
}

/// The text of a buffer is what is encoded before its first NUL, or in all of it.
pub proof fn law_nul_ended(units: Seq<u16>, rest: Seq<u16>)
    requires
        forall|i: int| 0 <= i < units.len() ==> #[trigger] units[i] != 0,
    ensures
        nul_ended(units + seq![0u16] + rest) == decoded(units),
        nul_ended(units) == decoded(units),
{
    let all = units + seq![0u16] + rest;
    lemma_nul_at(all);
    lemma_nul_at(units);
    let n = nul_at(all) as int;
    assert(all[units.len() as int] == 0);
    if n < units.len() {
        assert(all[n] == units[n]);
    }
    assert(all.take(n) =~= units);
    if nul_at(units) < units.len() {
        assert(units[nul_at(units) as int] == 0);
    }
    assert(units.take(nul_at(units) as int) =~= units);
}

/// Half a surrogate pair gives a replacement character, and what follows it is not lost.
pub proof fn law_half_a_pair(u: u16, rest: Seq<u16>)
    requires
        0xd800 <= u < 0xe000,
        u >= 0xdc00 || rest.len() == 0 || !(0xdc00 <= rest[0] < 0xe000),
    ensures
        decoded(seq![u] + rest) == seq!['\u{fffd}'] + decoded(rest),
{
    let all = seq![u] + rest;
    assert(all.skip(1) =~= rest);
    if rest.len() > 0 {
        assert(all[1] == rest[0]);
    }
}

/// A text is encoded character by character. A character of the basic plane is one code
/// unit, any other one a surrogate pair, the high half first.
pub proof fn law_units_of_characters(a: Seq<char>, b: Seq<char>, c: char)
    ensures
        encoded(a + b) == encoded(a) + encoded(b),
        encoded(Seq::empty()).len() == 0,
        (c as u32) < 0x1_0000 ==> encoded(seq![c]) == seq![c as u16],
        c as u32 >= 0x1_0000 ==> {
            &&& encoded(seq![c]).len() == 2
            &&& 0xd800 <= encoded(seq![c])[0] < 0xdc00
            &&& 0xdc00 <= encoded(seq![c])[1] < 0xe000
            &&& (encoded(seq![c])[0] - 0xd800) * 0x400 + (encoded(seq![c])[1] - 0xdc00) + 0x1_0000
                == c as u32
        },
    decreases b.len(),
{
    lemma_scalar(c);
    assert(seq![c].drop_last() =~= Seq::<char>::empty());
    assert(encoded(seq![c].drop_last()).len() == 0);
    assert(encoded(seq![c]) =~= char_units(c));
    if b.len() == 0 {
        assert(a + b =~= a);
        assert(encoded(a) + encoded(b) =~= encoded(a));
    } else {
        law_units_of_characters(a, b.drop_last(), c);
        assert((a + b).drop_last() =~= a + b.drop_last());
        assert(encoded(a + b) =~= encoded(a) + encoded(b));
    }
}

/// A code unit that is half of no pair stands for the character with its number.
pub proof fn law_unit_is_a_character(u: u16, rest: Seq<u16>)
    requires
        u < 0xd800 || u >= 0xe000,
    ensures
        decoded(seq![u] + rest) == seq![u as char] + decoded(rest),
{
    assert((seq![u] + rest).skip(1) =~= rest);
}

} // verus!
