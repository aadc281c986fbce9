//! Byte offsets of characters in UTF-8 text.

use vstd::prelude::*;
use vstd::string::StringSliceAdditionalSpecFns;
use vstd::utf8::*;

verus! {

/// Byte offset of the `k`-th character of `cs` in its UTF-8 encoding.
pub open spec fn byte_offset(cs: Seq<char>, k: int) -> int {
    encode_utf8(cs.take(k)).len() as int
}

/// Number of bytes in the UTF-8 encoding of `c`.
pub open spec fn utf8_width(c: char) -> int {
    encode_scalar(c as u32).len() as int
}

pub proof fn lemma_encode_concat(x: Seq<char>, y: Seq<char>)
    ensures
        encode_utf8(x + y) == encode_utf8(x) + encode_utf8(y),
    decreases x.len(),
{
    if x.len() == 0 {
        assert(x + y =~= y);
        assert(encode_utf8(x) =~= Seq::<u8>::empty());
        assert(encode_utf8(x) + encode_utf8(y) =~= encode_utf8(y));
    } else {
        assert((x + y).drop_first() =~= x.drop_first() + y);
        assert((x + y)[0] == x[0]);
        lemma_encode_concat(x.drop_first(), y);
        assert(encode_utf8(x + y) =~= encode_scalar(x[0] as u32) + (encode_utf8(x.drop_first())
            + encode_utf8(y)));
    }
}

pub proof fn lemma_encode_one(c: char)
    ensures
        encode_utf8(seq![c]) == encode_scalar(c as u32),
{
    assert(seq![c].drop_first() =~= Seq::<char>::empty());
    assert(encode_utf8(Seq::<char>::empty()) =~= Seq::<u8>::empty());
    assert(encode_utf8(seq![c]) =~= encode_scalar(c as u32) + Seq::<u8>::empty());
}

/// Offsets grow by the width of each character.
pub proof fn lemma_offset_step(cs: Seq<char>, k: int)
    requires
        0 <= k < cs.len(),
    ensures
        byte_offset(cs, k + 1) == byte_offset(cs, k) + utf8_width(cs[k]),
        utf8_width(cs[k]) >= 1,
{
    assert(cs.take(k + 1) =~= cs.take(k) + seq![cs[k]]);
    lemma_encode_concat(cs.take(k), seq![cs[k]]);
    lemma_encode_one(cs[k]);
}

pub proof fn lemma_offset_zero(cs: Seq<char>)
    ensures
        byte_offset(cs, 0) == 0,
{
    assert(cs.take(0) =~= Seq::<char>::empty());
}

pub proof fn lemma_offset_end(cs: Seq<char>)
    ensures
        byte_offset(cs, cs.len() as int) == encode_utf8(cs).len(),
{
    assert(cs.take(cs.len() as int) =~= cs);
}

/// Offsets grow strictly with the character index.
pub proof fn lemma_offset_mono(cs: Seq<char>, j: int, k: int)
    requires
        0 <= j <= k <= cs.len(),
    ensures
        byte_offset(cs, j) <= byte_offset(cs, k),
        j < k ==> byte_offset(cs, j) < byte_offset(cs, k),
    decreases k - j,
{
    if j < k {
        lemma_offset_mono(cs, j, k - 1);
        lemma_offset_step(cs, k - 1);
    }
}

/// `std`'s `char::len_utf8`, computed from the code point.
pub fn char_len_utf8(c: char) -> (n: usize)
    ensures
        n == utf8_width(c),
        1 <= n <= 4,
{
    let v = c as u32;
    proof {
        assert(is_scalar(v)) by {
            broadcast use char_is_scalar;
        }
    }
    if v <= 0x7F {
        1
    } else if v <= 0x7FF {
        2
    } else if v <= 0xFFFF {
        3
    } else {
        4
    }
}

/// The byte offset of every character of `s`, followed by `s`'s byte length.
pub fn char_starts(s: &str) -> (starts: Vec<usize>)
    requires
        s.spec_bytes().len() <= usize::MAX,
    ensures
        starts.len() == s@.len() + 1,
        forall|k: int| 0 <= k <= s@.len() ==> #[trigger] starts[k] == byte_offset(s@, k),
        starts[s@.len() as int] == s.spec_bytes().len(),
{
    let cs = crate::text::chars_of(s);
    let total = s.len();
    let mut starts: Vec<usize> = Vec::new();
    let mut acc: usize = 0;
    let mut k: usize = 0;
    proof {
        lemma_offset_zero(cs@);
        lemma_offset_end(cs@);
    }
    while k < cs.len()
        invariant
            k <= cs.len(),
            cs@ == s@,
            total == s.spec_bytes().len(),
            total == byte_offset(cs@, cs.len() as int),
            acc == byte_offset(cs@, k as int),
            starts.len() == k,
            forall|x: int| 0 <= x < k ==> #[trigger] starts[x] == byte_offset(s@, x),
        decreases cs.len() - k,
    {
        starts.push(acc);
        proof {
            lemma_offset_step(cs@, k as int);
            lemma_offset_mono(cs@, k + 1, cs.len() as int);
        }
        acc = acc + char_len_utf8(cs[k]);
        k += 1;
    }
    starts.push(acc);
    starts
}

} // verus!
