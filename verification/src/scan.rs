//! What of a document the tokenizer is given: the bytes before the first
//! `<!DOCTYPE` that has nothing but blanks before its `>`. The tokenizer cannot
//! read such a declaration, so the stream ends where one begins.

use crate::number::{lower, lowered};
use vstd::prelude::*;

verus! {

/// `<!doctype`, in lower case.
pub const DOCTYPE: [u8; 9] = [0x3c, 0x21, 0x64, 0x6f, 0x63, 0x74, 0x79, 0x70, 0x65];

/// A blank, a tab, a line feed or a carriage return.
pub open spec fn is_blank(b: u8) -> bool {
    b == 0x20 || b == 0x09 || b == 0x0a || b == 0x0d
}

/// Whether `<!DOCTYPE` stands at index `i`, in letters of either case.
pub open spec fn opens_doctype(s: Seq<u8>, i: int) -> bool {
    &&& 0 <= i
    &&& i + 9 <= s.len()
    &&& forall|k: int| 0 <= k < 9 ==> lower(#[trigger] s[i + k]) == DOCTYPE@[k]
}

/// Whether nothing but blanks stands from index `k` up to a `>`.
pub open spec fn blank_to_close(s: Seq<u8>, k: int) -> bool
    decreases s.len() - k,
{
    if k < 0 || k >= s.len() {
        false
    } else if s[k] == 0x3e {
        true
    } else if is_blank(s[k]) {
        blank_to_close(s, k + 1)
    } else {
        false
    }
}

/// Whether a `<!DOCTYPE` with nothing but blanks before its `>` stands at
/// index `i`.
pub open spec fn bare_doctype_at(s: Seq<u8>, i: int) -> bool {
    opens_doctype(s, i) && blank_to_close(s, i + 9)
}

/// Whether such a declaration stands anywhere in `s`.
pub open spec fn has_bare_doctype(s: Seq<u8>) -> bool {
    exists|i: int| 0 <= i < s.len() && #[trigger] bare_doctype_at(s, i)
}

/// The index of the first such declaration from index `i` on, or the length
/// of `s` where there is none.
pub open spec fn first_bare_doctype(s: Seq<u8>, i: int) -> int
    decreases s.len() - i,
{
    if i < 0 || i >= s.len() {
        s.len() as int
    } else if bare_doctype_at(s, i) {
        i
    } else {
        first_bare_doctype(s, i + 1)
    }
}

/// The bytes of a document that are read: those before the first such
/// declaration, or all of them.
pub open spec fn readable(s: Seq<u8>) -> Seq<u8> {
    s.take(first_bare_doctype(s, 0))
}

/// Blanks up to a `>` in the first bytes of `s` are blanks up to a `>` in `s`.
proof fn lemma_blank_in_prefix(s: Seq<u8>, n: int, k: int)
    requires
        0 <= n <= s.len(),
        blank_to_close(s.take(n), k),
    ensures
        blank_to_close(s, k),
    decreases n - k,
{
    if s.take(n)[k] != 0x3e {
        lemma_blank_in_prefix(s, n, k + 1);
    }
}

/// The bytes before the first such declaration hold none.
proof fn lemma_prefix_is_clean(s: Seq<u8>, n: int)
    requires
        0 <= n <= s.len(),
        forall|i: int| 0 <= i < n ==> !bare_doctype_at(s, i),
    ensures
        !has_bare_doctype(s.take(n)),
{
    let head = s.take(n);
    assert forall|i: int| 0 <= i < head.len() implies !bare_doctype_at(head, i) by {
        if bare_doctype_at(head, i) {
            lemma_blank_in_prefix(s, n, i + 9);
            assert forall|k: int| 0 <= k < 9 implies lower(#[trigger] s[i + k]) == DOCTYPE@[k] by {
                assert(head[i + k] == s[i + k]);
            }
            assert(bare_doctype_at(s, i));
        }
    }
}

/// Whether `<!DOCTYPE` stands at index `i`.
fn opens_doctype_at(bytes: &[u8], i: usize) -> (yes: bool)
    requires
        i < bytes.len(),
    ensures
        yes == opens_doctype(bytes@, i as int),
{
    if bytes.len() - i < 9 {
        return false;
    }
    let mut k: usize = 0;
    while k < 9
        invariant
            k <= 9,
            i + 9 <= bytes.len(),
            forall|j: int| 0 <= j < k ==> lower(#[trigger] bytes@[i + j]) == DOCTYPE@[j],
        decreases 9 - k,
    {
        if lowered(bytes[i + k]) != DOCTYPE[k] {
            assert(lower(bytes@[i + k]) != DOCTYPE@[k as int]);
            return false;
        }
        k = k + 1;
    }
    true
}

/// Whether nothing but blanks stands from index `from` up to a `>`.
fn blank_to_close_at(bytes: &[u8], from: usize) -> (yes: bool)
    requires
        from <= bytes.len(),
    ensures
        yes == blank_to_close(bytes@, from as int),
{
    let mut k: usize = from;
    while k < bytes.len()
        invariant
            from <= k <= bytes.len(),
            blank_to_close(bytes@, from as int) == blank_to_close(bytes@, k as int),
        decreases bytes.len() - k,
    {
        let b = bytes[k];
        if b == 0x3e {
            return true;
        }
        if !(b == 0x20 || b == 0x09 || b == 0x0a || b == 0x0d) {
            return false;
        }
        k = k + 1;
    }
    false
}

/// How many bytes of a document are read.
pub fn readable_len(bytes: &[u8]) -> (n: usize)
    ensures
        n == first_bare_doctype(bytes@, 0),
        n <= bytes.len(),
        !has_bare_doctype(bytes@.take(n as int)),
{
    let mut i: usize = 0;
    while i < bytes.len()
        invariant
            i <= bytes.len(),
            first_bare_doctype(bytes@, 0) == first_bare_doctype(bytes@, i as int),
            forall|j: int| 0 <= j < i ==> !bare_doctype_at(bytes@, j),
        decreases bytes.len() - i,
    {
        if opens_doctype_at(bytes, i) && blank_to_close_at(bytes, i + 9) {
            proof {
                lemma_prefix_is_clean(bytes@, i as int);
            }
            return i;
        }
        i = i + 1;
    }
    proof {
        lemma_prefix_is_clean(bytes@, i as int);
    }
    i
}

} // verus!
