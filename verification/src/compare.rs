//! Comparisons of a string with other strings.
use vstd::prelude::*;
use vstd::string::*;
use vstd::utf8::*;

verus! {

/// Equal strings have equal encodings, and strings with equal encodings are
/// equal.
pub proof fn lemma_same_bytes_same_text(a: Seq<char>, b: Seq<char>)
    ensures
        (encode_utf8(a) == encode_utf8(b)) <==> a == b,
{
    encode_utf8_decode_utf8(a);
    encode_utf8_decode_utf8(b);
}

/// Whether `a` and `b` hold the same text.
pub fn same_text(a: &str, b: &str) -> (same: bool)
    ensures
        same == (a@ == b@),
{
    let x = a.as_bytes();
    let y = b.as_bytes();
    if x.len() != y.len() {
        return false;
    }
    let mut i: usize = 0;
    while i < x.len()
        invariant
            i <= x.len(),
            x.len() == y.len(),
            x@ == encode_utf8(a@),
            y@ == encode_utf8(b@),
            forall|k: int| 0 <= k < i ==> x@[k] == y@[k],
        decreases x.len() - i,
    {
        if x[i] != y[i] {
            assert(x@[i as int] != y@[i as int]);
            return false;
        }
        i += 1;
    }
    proof {
        assert(x@ =~= y@);
        lemma_same_bytes_same_text(a@, b@);
    }
    true
}

/// The encoding of two texts put together is their encodings put together.
pub proof fn lemma_encode_concat(a: Seq<char>, b: Seq<char>)
    ensures
        encode_utf8(a + b) == encode_utf8(a) + encode_utf8(b),
    decreases a.len(),
{
    if a.len() == 0 {
        assert(a + b =~= b);
        assert(encode_utf8(a) + encode_utf8(b) =~= encode_utf8(b));
    } else {
        lemma_encode_concat(a.drop_first(), b);
        assert((a + b).drop_first() =~= a.drop_first() + b);
        assert((a + b)[0] == a[0]);
        assert(encode_utf8(a + b) =~= encode_utf8(a) + encode_utf8(b));
    }
}

/// A text ends with another exactly when its encoding ends with the
/// encoding of the other.
pub proof fn lemma_suffix_by_bytes(s: Seq<char>, e: Seq<char>)
    ensures
        encode_utf8(e).is_suffix_of(encode_utf8(s)) <==> e.is_suffix_of(s),
{
    let bs = encode_utf8(s);
    let be = encode_utf8(e);
    encode_utf8_valid_utf8(s);
    encode_utf8_valid_utf8(e);
    encode_utf8_decode_utf8(s);
    encode_utf8_decode_utf8(e);
    if e.is_suffix_of(s) {
        let head = s.subrange(0, s.len() - e.len());
        assert(s =~= head + e);
        lemma_encode_concat(head, e);
        assert(bs.subrange(bs.len() - be.len(), bs.len() as int) =~= be);
    }
    if be.is_suffix_of(bs) {
        let k = bs.len() - be.len();
        if be.len() == 0 {
            assert(e.len() == 0);
            assert(s.subrange(s.len() as int, s.len() as int) =~= e);
        } else {
            is_char_boundary_start_end_of_seq(be);
            is_char_boundary_iff_is_leading_byte(be, 0);
            assert(bs[k] == be[0]);
            is_char_boundary_iff_is_leading_byte(bs, k);
            decode_utf8_split(bs, k);
            let front = decode_utf8(bs.subrange(0, k));
            assert(bs.subrange(k, bs.len() as int) =~= be);
            assert(s =~= front + e);
            assert(s.subrange(s.len() - e.len(), s.len() as int) =~= e);
        }
    }
}

/// Whether `s` ends with `end`.
pub fn has_suffix(s: &str, end: &str) -> (found: bool)
    ensures
        found == end@.is_suffix_of(s@),
{
    let x = s.as_bytes();
    let y = end.as_bytes();
    proof {
        lemma_suffix_by_bytes(s@, end@);
    }
    if y.len() > x.len() {
        return false;
    }
    let from: usize = x.len() - y.len();
    let mut i: usize = 0;
    while i < y.len()
        invariant
            i <= y.len(),
            from + y.len() == x.len(),
            x@ == encode_utf8(s@),
            y@ == encode_utf8(end@),
            y@.is_suffix_of(x@) <==> end@.is_suffix_of(s@),
            forall|k: int| 0 <= k < i ==> x@[from + k] == y@[k],
        decreases y.len() - i,
    {
        if x[from + i] != y[i] {
            assert(x@.subrange(from as int, x@.len() as int)[i as int] != y@[i as int]);
            return false;
        }
        i += 1;
    }
    assert(x@.subrange(from as int, x@.len() as int) =~= y@);
    true
}

/// Whether `text` ends with one of `ends`.
pub open spec fn ends_with_one_of(text: Seq<char>, ends: Seq<&str>) -> bool {
    exists|i: int| 0 <= i < ends.len() && (#[trigger] ends[i])@.is_suffix_of(text)
}

/// Whether `s` ends with one of `ends`, which are tried in their order; with
/// no ends to try, it does not.
pub fn ends_with_any(s: &str, ends: &Vec<&str>) -> (found: bool)
    ensures
        found == ends_with_one_of(s@, ends@),
{
    let mut i: usize = 0;
    while i < ends.len()
        invariant
            i <= ends.len(),
            forall|k: int| 0 <= k < i ==> !(#[trigger] ends@[k])@.is_suffix_of(s@),
        decreases ends.len() - i,
    {
        if has_suffix(s, ends[i]) {
            return true;
        }
        i += 1;
    }
    false
}

} // verus!
