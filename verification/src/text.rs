//! Text in the image: where a run of bytes ends at a zero, and whether it
//! is UTF-8.

use vstd::prelude::*;
use vstd::string::StringSliceAdditionalSpecFns;
use vstd::utf8::valid_utf8;

verus! {

/// Whether `p` is where the text at the start of `s` ends: at the first
/// zero byte, or at the end of `s` where it holds none.
pub open spec fn is_text_end(s: Seq<u8>, p: int) -> bool {
    &&& 0 <= p <= s.len()
    &&& forall|j: int| 0 <= j < p ==> s[j] != 0
    &&& p < s.len() ==> s[p] == 0
}

/// Where the text at the start of `s` ends.
pub open spec fn text_end(s: Seq<u8>) -> int {
    choose|p: int| is_text_end(s, p)
}

/// The text at the start of `s`: what stands before its first zero byte.
pub open spec fn text_of(s: Seq<u8>) -> Seq<u8> {
    s.subrange(0, text_end(s))
}

/// Whether `s` holds no zero byte.
pub open spec fn has_no_nul(s: Seq<u8>) -> bool {
    forall|j: int| 0 <= j < s.len() ==> s[j] != 0
}

/// The text ends where `p` says, and nowhere else.
pub proof fn lemma_text_end_is(s: Seq<u8>, p: int)
    requires
        is_text_end(s, p),
    ensures
        text_end(s) == p,
{
    let q = text_end(s);
    assert(is_text_end(s, q));
    if q < p {
        assert(s[q] != 0);
    } else if p < q {
        assert(s[p] != 0);
    }
}

/// Every run of bytes has a place where its text ends.
pub proof fn lemma_text_end_exists(s: Seq<u8>)
    ensures
        is_text_end(s, text_end(s)),
        has_no_nul(text_of(s)),
    decreases s.len(),
{
    if s.len() == 0 {
        assert(is_text_end(s, 0));
    } else if s[0] == 0 {
        assert(is_text_end(s, 0));
    } else {
        let t = s.subrange(1, s.len() as int);
        lemma_text_end_exists(t);
        let q = text_end(t);
        assert forall|j: int| 0 <= j < q + 1 implies s[j] != 0 by {
            if j > 0 {
                assert(s[j] == t[j - 1]);
            }
        }
        if q + 1 < s.len() {
            assert(s[q + 1] == t[q]);
        }
        assert(is_text_end(s, q + 1));
    }
}

/// Text that is followed by a zero byte ends there, whatever comes after.
pub proof fn lemma_text_of_terminated(t: Seq<u8>, rest: Seq<u8>)
    requires
        has_no_nul(t),
    ensures
        text_of(t + seq![0u8] + rest) == t,
        text_end(t + seq![0u8] + rest) == t.len(),
{
    let s = t + seq![0u8] + rest;
    assert(is_text_end(s, t.len() as int));
    lemma_text_end_is(s, t.len() as int);
    assert(s.subrange(0, t.len() as int) =~= t);
}

/// Text that fills its run to the end is the whole run.
pub proof fn lemma_text_of_unterminated(t: Seq<u8>)
    requires
        has_no_nul(t),
    ensures
        text_of(t) == t,
        text_end(t) == t.len(),
{
    assert(is_text_end(t, t.len() as int));
    lemma_text_end_is(t, t.len() as int);
    assert(t.subrange(0, t.len() as int) =~= t);
}

/// Finds where the text at the start of `buff` ends.
pub fn find_text_end(buff: &[u8]) -> (p: usize)
    ensures
        p == text_end(buff@),
        p <= buff@.len(),
{
    let mut i: usize = 0;
    while i < buff.len() && buff[i] != 0
        invariant
            i <= buff@.len(),
            forall|j: int| 0 <= j < i ==> buff@[j] != 0,
        decreases buff@.len() - i,
    {
        i = i + 1;
    }
    proof {
        lemma_text_end_is(buff@, i as int);
    }
    i
}

/// Whether `s` is valid UTF-8.
#[verifier::opaque]
pub open spec fn is_utf8(s: Seq<u8>) -> bool {
    valid_utf8(s)
}

/// The bytes of a string are valid UTF-8.
pub proof fn lemma_string_is_utf8(chars: Seq<char>)
    ensures
        is_utf8(vstd::utf8::encode_utf8(chars)),
{
    reveal(is_utf8);
    vstd::utf8::encode_utf8_valid_utf8(chars);
}

/// Whether `buff` holds no zero byte.
pub fn holds_no_nul(buff: &[u8]) -> (r: bool)
    ensures
        r == has_no_nul(buff@),
{
    let end: usize = find_text_end(buff);
    proof {
        lemma_text_end_exists(buff@);
    }
    end == buff.len()
}

/// Reads `buff` as UTF-8 text, if it is such text.
///
/// Calls `core::str::from_utf8`, which is not verified here. The contract
/// states what its documentation says: it succeeds exactly on byte runs
/// that are valid UTF-8, and the string it gives has those very bytes.
#[verifier::external_body]
pub(crate) fn utf8_str(buff: &[u8]) -> (r: Option<&str>)
    ensures
        r is Some <==> valid_utf8(buff@),
        r is Some ==> r->0.spec_bytes() == buff@,
{
    core::str::from_utf8(buff).ok()
}

} // verus!
