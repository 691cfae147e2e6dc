//! Text read from the game's memory: a fixed-size buffer that holds a
//! NUL-terminated string.
use vstd::prelude::*;
use vstd::slice::slice_subrange;
use vstd::utf8::{decode_utf8, decode_utf8_encode_utf8, encode_utf8, valid_utf8};

verus! {

/// Position of the first NUL byte of `s`, or its length if it has none.
pub open spec fn nul_index(s: Seq<u8>) -> nat
    decreases s.len(),
{
    if s.len() == 0 || s[0] == 0 {
        0
    } else {
        1 + nul_index(s.drop_first())
    }
}

/// Whether `s` holds a NUL byte.
pub open spec fn has_nul(s: Seq<u8>) -> bool {
    exists|i: int| 0 <= i < s.len() && s[i] == 0
}

/// The text that `String::from_utf8_lossy` makes of `bytes`: the bytes
/// decoded as UTF-8, with each ill-formed sequence replaced by U+FFFD.
pub uninterp spec fn utf8_lossy(bytes: Seq<u8>) -> Seq<char>;

/// Wraps `String::from_utf8_lossy`. Stated: its result is `utf8_lossy`
/// of the bytes; for well-formed UTF-8 it is the decoded text; it holds a
/// NUL character only where the bytes hold a NUL byte; and its UTF-8
/// encoding is at least as long as the bytes and at most three times as
/// long, since well-formed sequences are kept byte for byte and each
/// ill-formed one (one to three bytes) becomes U+FFFD (three bytes).
#[verifier::external_body]
fn decode_lossy(bytes: &[u8]) -> (res: String)
    ensures
        res@ == utf8_lossy(bytes@),
        valid_utf8(bytes@) ==> res@ == decode_utf8(bytes@),
        !bytes@.contains(0u8) ==> !res@.contains('\0'),
        bytes@.len() <= encode_utf8(res@).len() <= 3 * bytes@.len(),
{
    String::from_utf8_lossy(bytes).to_string()
}

proof fn lemma_nul_index(s: Seq<u8>, k: int)
    requires
        0 <= k <= s.len(),
        forall|i: int| 0 <= i < k ==> #[trigger] s[i] != 0,
        k == s.len() || s[k] == 0,
    ensures
        nul_index(s) == k,
    decreases k,
{
    if k > 0 {
        lemma_nul_index(s.drop_first(), k - 1);
    }
}

/// Decodes the NUL-terminated string at the start of `buf`: the bytes
/// before the first NUL, read as UTF-8 with ill-formed sequences replaced.
/// `buf` must hold a NUL.
pub fn decode_cstring(buf: &[u8]) -> (res: String)
    requires
        has_nul(buf@),
    ensures
        nul_index(buf@) < buf@.len(),
        buf@[nul_index(buf@) as int] == 0,
        forall|j: int| 0 <= j < nul_index(buf@) ==> #[trigger] buf@[j] != 0,
        res@ == utf8_lossy(buf@.take(nul_index(buf@) as int)),
        valid_utf8(buf@.take(nul_index(buf@) as int)) ==> res@ == decode_utf8(
            buf@.take(nul_index(buf@) as int),
        ),
        !res@.contains('\0'),
        nul_index(buf@) <= encode_utf8(res@).len() <= 3 * nul_index(buf@),
        valid_utf8(buf@.take(nul_index(buf@) as int)) ==> encode_utf8(res@) == buf@.take(
            nul_index(buf@) as int,
        ),
{
    let mut i: usize = 0;
    while buf[i] != 0
        invariant
            i < buf@.len(),
            has_nul(buf@),
            forall|j: int| 0 <= j < i ==> #[trigger] buf@[j] != 0,
            forall|j: int| 0 <= j < buf@.len() && buf@[j] == 0 ==> i <= j,
        decreases buf@.len() - i,
    {
        i = i + 1;
    }
    proof {
        lemma_nul_index(buf@, i as int);
    }
    let prefix = slice_subrange(buf, 0, i);
    assert(prefix@ == buf@.take(i as int));
    assert(!prefix@.contains(0u8));
    let res = decode_lossy(prefix);
    proof {
        if valid_utf8(prefix@) {
            decode_utf8_encode_utf8(prefix@);
        }
    }
    res
}

} // verus!
