//! Byte patterns over the public-key image of a candidate key.

use vstd::prelude::*;
use vstd::utf8::encode_utf8;

verus! {

/// A predicate over the bytes of a candidate key.
///
/// The text of a pattern stands for its UTF-8 bytes; matching compares bytes.
#[derive(Debug, Clone)]
pub enum VanityPattern {
    /// The key starts with the pattern.
    Prefix(String),
    /// The key ends with the pattern.
    Suffix(String),
    /// The pattern occurs somewhere in the key.
    Contains(String),
    /// The pattern occurs in the key at the given byte offset.
    AtPosition(String, usize),
}

/// `pat` occurs in `key` at byte offset `start`.
pub open spec fn occurs_at(key: Seq<u8>, start: int, pat: Seq<u8>) -> bool {
    &&& 0 <= start
    &&& start + pat.len() <= key.len()
    &&& key.subrange(start, start + pat.len()) == pat
}

/// `pat` occurs in `key` as a contiguous run at some offset.
pub open spec fn occurs_in(key: Seq<u8>, pat: Seq<u8>) -> bool {
    exists|i: int| occurs_at(key, i, pat)
}

impl VanityPattern {
    /// The pattern's text.
    pub open spec fn text(&self) -> Seq<char> {
        match self {
            VanityPattern::Prefix(s) => s@,
            VanityPattern::Suffix(s) => s@,
            VanityPattern::Contains(s) => s@,
            VanityPattern::AtPosition(s, _) => s@,
        }
    }

    /// The bytes that the pattern looks for.
    pub open spec fn bytes(&self) -> Seq<u8> {
        encode_utf8(self.text())
    }

    /// What it means for a key to satisfy the pattern.
    pub open spec fn matches_spec(&self, key: Seq<u8>) -> bool {
        let p = self.bytes();
        match self {
            VanityPattern::Prefix(_) => occurs_at(key, 0, p),
            VanityPattern::Suffix(_) => occurs_at(key, key.len() - p.len(), p),
            VanityPattern::Contains(_) => occurs_in(key, p),
            VanityPattern::AtPosition(_, offset) => occurs_at(key, *offset as int, p),
        }
    }

    /// Whether `key_bytes` satisfies the pattern. Total: an offset or a
    /// length that does not fit the key gives `false`.
    pub fn matches(&self, key_bytes: &[u8]) -> (r: bool)
        ensures
            r == self.matches_spec(key_bytes@),
    {
        match self {
            VanityPattern::Prefix(pattern) => {
                let pat = pattern.as_str().as_bytes();
                pat.len() <= key_bytes.len() && equal_at(key_bytes, 0, pat)
            },
            VanityPattern::Suffix(pattern) => {
                let pat = pattern.as_str().as_bytes();
                pat.len() <= key_bytes.len() && equal_at(key_bytes, key_bytes.len() - pat.len(), pat)
            },
            VanityPattern::Contains(pattern) => {
                let pat = pattern.as_str().as_bytes();
                find_window(key_bytes, pat)
            },
            VanityPattern::AtPosition(pattern, position) => {
                let pat = pattern.as_str().as_bytes();
                *position <= key_bytes.len() && pat.len() <= key_bytes.len() - *position
                    && equal_at(key_bytes, *position, pat)
            },
        }
    }
}

/// A prefix that is no longer than the key matches exactly when the key's
/// first bytes are the pattern's.
pub proof fn lemma_prefix_matches(pattern: VanityPattern, key: Seq<u8>)
    requires
        pattern is Prefix,
        pattern.bytes().len() <= key.len(),
    ensures
        pattern.matches_spec(key) <==> key.subrange(0, pattern.bytes().len() as int)
            == pattern.bytes(),
{
}

/// A suffix matches exactly when it is no longer than the key and the key's
/// last bytes are the pattern's.
pub proof fn lemma_suffix_matches(pattern: VanityPattern, key: Seq<u8>)
    requires
        pattern is Suffix,
    ensures
        pattern.matches_spec(key) <==> pattern.bytes().len() <= key.len() && key.subrange(
            key.len() - pattern.bytes().len(),
            key.len() as int,
        ) == pattern.bytes(),
{
}

/// A pattern at a position that reaches beyond the end of the key does not
/// match.
pub proof fn lemma_position_out_of_range(pattern: VanityPattern, key: Seq<u8>)
    requires
        pattern matches VanityPattern::AtPosition(_, offset) && offset + pattern.bytes().len()
            > key.len(),
    ensures
        !pattern.matches_spec(key),
{
}

/// Compares the window of `key` that starts at `start` with `pat`.
fn equal_at(key: &[u8], start: usize, pat: &[u8]) -> (r: bool)
    requires
        start + pat@.len() <= key@.len(),
    ensures
        r == occurs_at(key@, start as int, pat@),
{
    let n: usize = pat.len();
    let key_len: usize = key.len();
    let mut i: usize = 0;
    while i < n
        invariant
            n == pat@.len(),
            key_len == key@.len(),
            start + n <= key@.len(),
            i <= n,
            forall|j: int| 0 <= j < i ==> key@[start + j] == pat@[j],
        decreases n - i,
    {
        if key[start + i] != pat[i] {
            assert(key@.subrange(start as int, start + n)[i as int] != pat@[i as int]);
            return false;
        }
        i += 1;
    }
    assert(key@.subrange(start as int, start + n) =~= pat@);
    true
}

/// Slides a window of the pattern's length over the key.
fn find_window(key: &[u8], pat: &[u8]) -> (r: bool)
    ensures
        r == occurs_in(key@, pat@),
{
    if pat.len() > key.len() {
        return false;
    }
    let last: usize = key.len() - pat.len();
    let mut i: usize = 0;
    loop
        invariant
            last == key@.len() - pat@.len(),
            i <= last,
            forall|j: int| 0 <= j < i ==> !occurs_at(key@, j, pat@),
        decreases last - i,
    {
        if equal_at(key, i, pat) {
            return true;
        }
        if i == last {
            return false;
        }
        i += 1;
    }
}

} // verus!
