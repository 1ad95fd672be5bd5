//! Signature Scanner: searches a byte buffer for any of a fixed, ordered
//! catalog of malicious byte signatures, anywhere in the buffer.

use vstd::prelude::*;

verus! {

/// `needle` occurs in `haystack` as a contiguous subsequence starting at
/// position `i`.
pub open spec fn match_at(haystack: Seq<u8>, needle: Seq<u8>, i: int) -> bool {
    &&& 0 <= i
    &&& i + needle.len() <= haystack.len()
    &&& haystack.subrange(i, i + needle.len() as int) == needle
}

/// `needle` occurs somewhere in `haystack` as a contiguous subsequence.
pub open spec fn occurs_in(haystack: Seq<u8>, needle: Seq<u8>) -> bool {
    exists|i: int| match_at(haystack, needle, i)
}

/// Some signature of the catalog occurs in `content`.
pub open spec fn any_signature(content: Seq<u8>, signatures: Seq<Seq<u8>>) -> bool {
    exists|k: int| 0 <= k < signatures.len() && occurs_in(content, signatures[k])
}

/// Relies on memchr::memmem::find: returns the index of the first
/// occurrence of `needle` in `haystack`, or None when there is none.
#[verifier::external_body]
fn find_pattern(haystack: &Vec<u8>, needle: &Vec<u8>) -> (r: Option<usize>)
    ensures
        r is Some ==> match_at(haystack@, needle@, r->Some_0 as int),
        r is None ==> !occurs_in(haystack@, needle@),
{
    memchr::memmem::find(haystack.as_slice(), needle.as_slice())
}

/// Whether any signature of the catalog occurs in `content`, checking the
/// signatures in catalog order and stopping at the first hit.
pub fn detect_script_patterns(content: &Vec<u8>, signatures: &Vec<Vec<u8>>) -> (r: bool)
    ensures
        r == any_signature(content@, signatures.deep_view()),
{
    let mut k: usize = 0;
    while k < signatures.len()
        invariant
            k <= signatures@.len(),
            forall|j: int| 0 <= j < k ==> !occurs_in(content@, signatures.deep_view()[j]),
        decreases signatures@.len() - k,
    {
        proof {
            assert(signatures.deep_view()[k as int] =~= signatures@[k as int]@);
        }
        if find_pattern(content, &signatures[k]).is_some() {
            assert(occurs_in(content@, signatures.deep_view()[k as int]));
            return true;
        }
        k = k + 1;
    }
    false
}

/// Law: a signature embedded anywhere in a buffer is reported, whatever
/// bytes precede or follow it.
pub proof fn lemma_embedded_signature_found(
    prefix: Seq<u8>,
    sig: Seq<u8>,
    suffix: Seq<u8>,
    signatures: Seq<Seq<u8>>,
)
    requires
        signatures.contains(sig),
    ensures
        any_signature(prefix + sig + suffix, signatures),
{
    let buf = prefix + sig + suffix;
    let at = prefix.len() as int;
    assert(buf.subrange(at, at + sig.len() as int) =~= sig);
    assert(match_at(buf, sig, at));
    let k = choose|k: int| 0 <= k < signatures.len() && signatures[k] == sig;
    assert(occurs_in(buf, signatures[k]));
}

} // verus!
