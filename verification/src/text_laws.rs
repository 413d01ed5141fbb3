//! What the text primitives are, stated without their definitions:
//! `contains_text` is "occurs as a piece", and `trim` cuts exactly the white
//! space at both ends.
use vstd::prelude::*;

use crate::text::{contains_text, is_ws, occurs_at, trim, trim_end, trim_start};

verus! {

/// `needle` occurs in `hay` exactly when `hay` is some text, then `needle`,
/// then some more text.
pub proof fn law_contains_text_is_a_piece(hay: Seq<char>, needle: Seq<char>)
    ensures
        contains_text(hay, needle) <==> exists|p: Seq<char>, q: Seq<char>| #[trigger] (p + needle + q)
            == hay,
{
    if contains_text(hay, needle) {
        let i = choose|i: int| occurs_at(hay, needle, i);
        let p = hay.take(i);
        let q = hay.skip(i + needle.len());
        assert(p + needle + q =~= hay);
    }
    if exists|p: Seq<char>, q: Seq<char>| #[trigger] (p + needle + q) == hay {
        let (p, q) = choose|p: Seq<char>, q: Seq<char>| #[trigger] (p + needle + q) == hay;
        let i = p.len() as int;
        assert(hay.subrange(i, i + needle.len()) =~= needle);
        assert(occurs_at(hay, needle, i));
    }
}

proof fn lemma_trim_start_shape(s: Seq<char>) -> (i: int)
    ensures
        0 <= i <= s.len(),
        forall|k: int| 0 <= k < i ==> is_ws(#[trigger] s[k]),
        i == s.len() || !is_ws(s[i]),
        trim_start(s) == s.skip(i),
    decreases s.len(),
{
    if s.len() > 0 && is_ws(s[0]) {
        let t = s.drop_first();
        let i0 = lemma_trim_start_shape(t);
        assert forall|k: int| 0 <= k < i0 + 1 implies is_ws(#[trigger] s[k]) by {
            if k > 0 {
                assert(s[k] == t[k - 1]);
            }
        }
        if i0 < t.len() {
            assert(s[i0 + 1] == t[i0]);
        }
        assert(t.skip(i0) =~= s.skip(i0 + 1));
        i0 + 1
    } else {
        assert(s.skip(0) =~= s);
        0
    }
}

proof fn lemma_trim_end_shape(s: Seq<char>) -> (j: int)
    ensures
        0 <= j <= s.len(),
        forall|k: int| j <= k < s.len() ==> is_ws(#[trigger] s[k]),
        j == 0 || !is_ws(s[j - 1]),
        trim_end(s) == s.take(j),
    decreases s.len(),
{
    if s.len() > 0 && is_ws(s.last()) {
        let t = s.drop_last();
        let j0 = lemma_trim_end_shape(t);
        assert forall|k: int| j0 <= k < s.len() implies is_ws(#[trigger] s[k]) by {
            if k < t.len() {
                assert(s[k] == t[k]);
            }
        }
        if j0 > 0 {
            assert(s[j0 - 1] == t[j0 - 1]);
        }
        assert(t.take(j0) =~= s.take(j0));
        j0
    } else {
        assert(s.take(s.len() as int) =~= s);
        s.len() as int
    }
}

/// Trimming removes exactly the white space at both ends: what is left
/// neither starts nor ends with white space, and it stands in `s` with only
/// white space before and after it.
pub proof fn law_trim_cuts_white_space_at_the_ends(s: Seq<char>)
    ensures
        trim(s).len() == 0 || (!is_ws(trim(s)[0]) && !is_ws(trim(s).last())),
        exists|i: int|
            #![trigger s.skip(i)]
            0 <= i && i + trim(s).len() <= s.len() && s.skip(i).take(trim(s).len() as int) == trim(s)
                && (forall|k: int| 0 <= k < i ==> is_ws(#[trigger] s[k])) && (forall|k: int|
                i + trim(s).len() <= k < s.len() ==> is_ws(#[trigger] s[k])),
{
    let i = lemma_trim_start_shape(s);
    let t = s.skip(i);
    let j = lemma_trim_end_shape(t);
    assert(trim(s) == t.take(j));
    assert(t.take(j) =~= s.subrange(i, i + j));
    if j > 0 {
        assert(trim(s)[0] == s[i]);
        assert(trim(s).last() == t[j - 1]);
    }
    assert forall|k: int| i + j <= k < s.len() implies is_ws(#[trigger] s[k]) by {
        assert(s[k] == t[k - i]);
    }
    assert(s.skip(i).take(trim(s).len() as int) == trim(s));
}

} // verus!
