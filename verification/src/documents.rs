//! Property lists of any kind: which of them are harmless to read.
use crate::bplist::{binary_is_harmless, is_harmless_binary};
use crate::bytes::{is_at, stands_at};
use crate::markup::{collections_from, is_harmless_xml, law_ordinary_xml_is_harmless, xml_from};
use crate::oldstyle::{is_harmless_text, text_list_from};
use vstd::prelude::*;

verus! {

/// How a binary property list starts: with `bplist00`.
pub open spec fn magic() -> Seq<u8> {
    seq![98, 112, 108, 105, 115, 116, 48, 48]
}

/// Whether a document is harmless to read. One that is not binary can be in XML or in
/// the old style.
pub open spec fn is_harmless(s: Seq<u8>) -> bool {
    if stands_at(s, 0, magic()) {
        binary_is_harmless(s)
    } else {
        xml_from(s, 0, 0) && text_list_from(s, 0, 0)
    }
}

/// Whether a document is harmless to read.
pub fn can_be_read(s: &[u8]) -> (yes: bool)
    ensures
        yes == is_harmless(s@),
{
    let start: [u8; 8] = [98, 112, 108, 105, 115, 116, 48, 48];
    assert(start@ =~= magic());
    if is_at(s, 0, start.as_slice()) {
        is_harmless_binary(s)
    } else {
        is_harmless_xml(s) && is_harmless_text(s)
    }
}

/// A document that starts with `<`, as XML does, is harmless if it has no dates and no more
/// than 128 names of collections, however long it is.
pub proof fn law_ordinary_documents_are_harmless(s: Seq<u8>)
    requires
        s.len() > 0,
        s[0] == 60,
        collections_from(s, 0) <= 128,
        forall|i: int|
            0 <= i < s.len() && (#[trigger] s[i] == 60 || s[i] == 58) ==> !stands_at(
                s,
                i + 1,
                seq![100, 97, 116, 101],
            ),
    ensures
        is_harmless(s),
{
    law_ordinary_xml_is_harmless(s);
    assert(magic()[0] == 98);
}

/// A document that starts with `<` is judged as XML, and one that starts as a binary one
/// does is judged as such.
pub proof fn law_start_tells_the_kind(s: Seq<u8>)
    requires
        s.len() > 8,
    ensures
        s[0] == 60 ==> (is_harmless(s) <==> xml_from(s, 0, 0)),
        s.take(8) == seq![98u8, 112, 108, 105, 115, 116, 48, 48] ==> (is_harmless(s)
            <==> binary_is_harmless(s)),
{
    assert(magic()[0] == 98);
    if s.take(8) == seq![98u8, 112, 108, 105, 115, 116, 48, 48] {
        assert forall|i: int| 0 <= i < magic().len() implies s[0 + i] == #[trigger] magic()[i] by {
            assert(s.take(8)[i] == magic()[i]);
        }
    }
}

} // verus!
