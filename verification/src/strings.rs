//! The string comparisons that the analysis relies on, done on the bytes of
//! the texts and proved to say what they say of the characters, and the
//! lowercase form of a text, which the standard library computes.

use vstd::prelude::*;
use vstd::string::StringSliceAdditionalSpecFns;
use vstd::utf8::{
    decode_utf8_split, encode_scalar, encode_utf8, encode_utf8_decode_utf8,
    encode_utf8_first_scalar, encode_utf8_valid_utf8, is_char_boundary, pop_first_scalar,
};

verus! {

/// `needle` occurs in `hay` as a contiguous run of characters.
pub open spec fn is_substring(needle: Seq<char>, hay: Seq<char>) -> bool {
    exists|i: int|
        0 <= i && i + needle.len() <= hay.len() && #[trigger] hay.subrange(i, i + needle.len())
            == needle
}

/// The lowercase form that `str::to_lowercase` gives of a text.
pub uninterp spec fn lowercase(text: Seq<char>) -> Seq<char>;

/// Whether two texts hold the same characters.
pub fn str_eq(left: &str, right: &str) -> (equal: bool)
    ensures
        equal == (left@ == right@),
{
    let a = left.as_bytes();
    let b = right.as_bytes();
    proof {
        encode_utf8_decode_utf8(left@);
        encode_utf8_decode_utf8(right@);
    }
    if a.len() != b.len() {
        return false;
    }
    let mut i: usize = 0;
    while i < a.len()
        invariant
            a@ == left.spec_bytes(),
            b@ == right.spec_bytes(),
            a@.len() == b@.len(),
            0 <= i <= a@.len(),
            forall|j: int| 0 <= j < i ==> a@[j] == b@[j],
        decreases a@.len() - i,
    {
        if a[i] != b[i] {
            assert(a@[i as int] != b@[i as int]);
            return false;
        }
        i = i + 1;
    }
    assert(a@ =~= b@);
    true
}

/// The encoding of two texts joined is their encodings joined.
proof fn lemma_encode_concat(a: Seq<char>, b: Seq<char>)
    ensures
        encode_utf8(a + b) == encode_utf8(a) + encode_utf8(b),
    decreases a.len(),
{
    if a.len() == 0 {
        assert(a + b =~= b);
        assert(encode_utf8(a) + encode_utf8(b) =~= encode_utf8(b));
    } else {
        lemma_encode_concat(a.drop_first(), b);
        assert((a + b).drop_first() =~= a.drop_first() + b);
        assert(encode_scalar(a[0] as u32) + (encode_utf8(a.drop_first()) + encode_utf8(b)) =~= (
        encode_scalar(a[0] as u32) + encode_utf8(a.drop_first())) + encode_utf8(b));
    }
}

/// In the encoding of two texts joined, the first text ends at a boundary
/// between two characters.
proof fn lemma_boundary_after_prefix(a: Seq<char>, b: Seq<char>)
    ensures
        is_char_boundary(encode_utf8(a + b), encode_utf8(a).len() as int),
    decreases a.len(),
{
    let bytes = encode_utf8(a + b);
    encode_utf8_valid_utf8(a + b);
    if a.len() > 0 {
        let rest = a.drop_first();
        lemma_boundary_after_prefix(rest, b);
        lemma_encode_concat(a, b);
        encode_utf8_first_scalar(a + b);
        assert((a + b).drop_first() =~= rest + b);
        assert(pop_first_scalar(bytes) =~= encode_utf8(rest + b));
    }
}

/// The characters of the two halves of a text that is split at a boundary,
/// joined, are the characters of the text.
proof fn lemma_split(text: Seq<char>, head: Seq<char>, tail: Seq<char>, at: int)
    requires
        is_char_boundary(encode_utf8(text), at),
        encode_utf8(head) == encode_utf8(text).subrange(0, at),
        encode_utf8(tail) == encode_utf8(text).subrange(at, encode_utf8(text).len() as int),
    ensures
        text == head + tail,
{
    encode_utf8_valid_utf8(text);
    encode_utf8_decode_utf8(text);
    encode_utf8_decode_utf8(head);
    encode_utf8_decode_utf8(tail);
    decode_utf8_split(encode_utf8(text), at);
}

/// Whether `prefix` is a prefix of `text`.
pub fn str_starts_with(text: &str, prefix: &str) -> (found: bool)
    ensures
        found == prefix@.is_prefix_of(text@),
{
    let n = prefix.as_bytes().len();
    if n > text.as_bytes().len() || !text.is_char_boundary(n) {
        proof {
            if prefix@.is_prefix_of(text@) {
                let rest = text@.skip(prefix@.len() as int);
                assert(text@ =~= prefix@ + rest);
                lemma_encode_concat(prefix@, rest);
                lemma_boundary_after_prefix(prefix@, rest);
            }
        }
        return false;
    }
    let (head, tail) = text.split_at(n);
    proof {
        lemma_split(text@, head@, tail@, n as int);
    }
    let equal = str_eq(head, prefix);
    proof {
        if equal {
            assert(text@.subrange(0, prefix@.len() as int) =~= prefix@);
        } else if prefix@.is_prefix_of(text@) {
            let rest = text@.skip(prefix@.len() as int);
            assert(text@ =~= prefix@ + rest);
            lemma_encode_concat(prefix@, rest);
            assert(encode_utf8(text@).subrange(0, n as int) =~= encode_utf8(prefix@));
            encode_utf8_decode_utf8(head@);
            encode_utf8_decode_utf8(prefix@);
        }
    }
    equal
}

/// Whether `needle` occurs somewhere in `text`.
pub fn str_contains(text: &str, needle: &str) -> (found: bool)
    ensures
        found == is_substring(needle@, text@),
{
    let len = text.as_bytes().len();
    let mut at: usize = 0;
    loop
        invariant
            len == encode_utf8(text@).len(),
            0 <= at <= len,
            forall|i: int|
                0 <= i <= text@.len() && encode_utf8(#[trigger] text@.take(i)).len() < at
                    ==> !needle@.is_prefix_of(text@.skip(i)),
        decreases len - at,
    {
        if text.is_char_boundary(at) {
            let (head, tail) = text.split_at(at);
            proof {
                lemma_split(text@, head@, tail@, at as int);
            }
            if str_starts_with(tail, needle) {
                proof {
                    let i = head@.len() as int;
                    assert(text@.skip(i) =~= tail@);
                    assert(text@.subrange(i, i + needle@.len()) =~= tail@.subrange(
                        0,
                        needle@.len() as int,
                    ));
                }
                return true;
            }
            proof {
                assert forall|i: int|
                    0 <= i <= text@.len() && encode_utf8(#[trigger] text@.take(i)).len()
                        == at implies !needle@.is_prefix_of(text@.skip(i)) by {
                    assert(text@ =~= text@.take(i) + text@.skip(i));
                    lemma_encode_concat(text@.take(i), text@.skip(i));
                    assert(encode_utf8(text@).subrange(0, at as int) =~= encode_utf8(
                        text@.take(i),
                    ));
                    encode_utf8_decode_utf8(head@);
                    encode_utf8_decode_utf8(text@.take(i));
                    assert(head@ == text@.take(i));
                    assert(tail@ =~= text@.skip(i));
                }
            }
        } else {
            proof {
                assert forall|i: int|
                    0 <= i <= text@.len() && encode_utf8(#[trigger] text@.take(i)).len()
                        == at implies false by {
                    assert(text@ =~= text@.take(i) + text@.skip(i));
                    lemma_boundary_after_prefix(text@.take(i), text@.skip(i));
                }
            }
        }
        if at == len {
            proof {
                assert forall|i: int|
                    0 <= i && i + needle@.len() <= text@.len() implies #[trigger] text@.subrange(
                    i,
                    i + needle@.len(),
                ) != needle@ by {
                    assert(text@ =~= text@.take(i) + text@.skip(i));
                    lemma_encode_concat(text@.take(i), text@.skip(i));
                    if text@.subrange(i, i + needle@.len()) == needle@ {
                        assert(text@.skip(i).subrange(0, needle@.len() as int) =~= needle@);
                    }
                }
            }
            return false;
        }
        at = at + 1;
    }
}

/// `str::to_lowercase`: the result is a function of the text alone, named
/// `lowercase`; nothing else is claimed of it.
#[verifier::external_body]
pub(crate) fn str_to_lowercase(text: &str) -> (lower: String)
    ensures
        lower@ == lowercase(text@),
{
    text.to_lowercase()
}

} // verus!
