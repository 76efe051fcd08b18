//! Places of ASCII characters in UTF-8 text.
use vstd::prelude::*;
use vstd::string::StringSliceAdditionalSpecFns;
use vstd::utf8::*;

verus! {

/// The bytes of two texts, one after the other.
pub proof fn lemma_encode_concat(a: Seq<char>, b: Seq<char>)
    ensures
        encode_utf8(a + b) == encode_utf8(a) + encode_utf8(b),
    decreases a.len(),
{
    if a.len() == 0 {
        assert(a + b =~= b);
        assert(encode_utf8(a) + encode_utf8(b) =~= encode_utf8(b));
    } else {
        assert((a + b).drop_first() =~= a.drop_first() + b);
        lemma_encode_concat(a.drop_first(), b);
        assert(encode_utf8(a + b) =~= encode_utf8(a) + encode_utf8(b));
    }
}

/// Different texts have different bytes.
pub proof fn lemma_encode_injective(a: Seq<char>, b: Seq<char>)
    requires
        encode_utf8(a) == encode_utf8(b),
    ensures
        a == b,
{
    encode_utf8_decode_utf8(a);
    encode_utf8_decode_utf8(b);
}

proof fn lemma_multibyte(v: u32)
    by (bit_vector)
    ensures
        leading_byte_width_2(v) >= 0x80,
        leading_byte_width_3(v) >= 0x80,
        leading_byte_width_4(v) >= 0x80,
        last_continuation_byte(v) >= 0x80,
        second_last_continuation_byte(v) >= 0x80,
        third_last_continuation_byte(v) >= 0x80,
{
}

/// An ASCII character is encoded as itself, any other in bytes that are no ASCII.
pub proof fn lemma_encode_scalar(c: char)
    ensures
        encode_scalar(c as u32).len() >= 1,
        c <= '\u{7f}' ==> encode_scalar(c as u32) == seq![c as u8],
        c > '\u{7f}' ==> forall|i: int|
            0 <= i < encode_scalar(c as u32).len() ==> #[trigger] encode_scalar(c as u32)[i]
                >= 0x80,
{
    let v = c as u32;
    char_is_scalar(c);
    if c <= '\u{7f}' {
        assert((v & 0x7F) as u8 == v as u8) by (bit_vector)
            requires
                v <= 0x7f,
        ;
        assert(encode_scalar(v) =~= seq![c as u8]);
    } else {
        lemma_multibyte(v);
    }
}

/// Different ASCII characters have different bytes, all below those of other characters.
pub proof fn lemma_ascii_byte(a: char, c: char)
    requires
        c <= '\u{7f}',
    ensures
        (c as u8) < 0x80,
        a <= '\u{7f}' && a as u8 == c as u8 ==> a == c,
{
}

/// The first place of an ASCII character in a text, from the first place of its byte.
pub proof fn lemma_first_ascii(s: Seq<char>, c: char, e: int) -> (k: int)
    requires
        c <= '\u{7f}',
        0 <= e <= encode_utf8(s).len(),
        forall|j: int| 0 <= j < e ==> encode_utf8(s)[j] != c as u8,
        e < encode_utf8(s).len() ==> encode_utf8(s)[e] == c as u8,
    ensures
        0 <= k <= s.len(),
        forall|j: int| 0 <= j < k ==> s[j] != c,
        encode_utf8(s.take(k)).len() == e,
        k < s.len() <==> e < encode_utf8(s).len(),
        k < s.len() ==> s[k] == c,
    decreases s.len(),
{
    if s.len() == 0 {
        assert(s.take(0) =~= s);
        0
    } else {
        let first = encode_scalar(s[0] as u32);
        let rest = encode_utf8(s.drop_first());
        lemma_encode_scalar(s[0]);
        assert(encode_utf8(s) == first + rest);
        if s[0] == c {
            if e > 0 {
                assert(encode_utf8(s)[0] == first[0]);
            }
            assert(s.take(0) =~= Seq::<char>::empty());
            0
        } else {
            if e < first.len() {
                assert(encode_utf8(s)[e] == first[e]);
                lemma_ascii_byte(s[0], c);
                assert(false);
            }
            assert forall|j: int| 0 <= j < e - first.len() implies rest[j] != c as u8 by {
                assert(encode_utf8(s)[j + first.len()] == rest[j]);
            }
            if e < encode_utf8(s).len() {
                assert(encode_utf8(s)[e] == rest[e - first.len()]);
            }
            let k = lemma_first_ascii(s.drop_first(), c, e - first.len());
            assert(s.take(k + 1).drop_first() =~= s.drop_first().take(k));
            assert forall|j: int| 0 <= j < k + 1 implies s[j] != c by {
                if j > 0 {
                    assert(s[j] == s.drop_first()[j - 1]);
                }
            }
            k + 1
        }
    }
}

/// The byte at which the `k`-th character of a text begins is a boundary.
pub proof fn lemma_boundary(s: Seq<char>, k: int)
    requires
        0 <= k <= s.len(),
    ensures
        valid_utf8(encode_utf8(s)),
        is_char_boundary(encode_utf8(s), encode_utf8(s.take(k)).len() as int),
        encode_utf8(s) == encode_utf8(s.take(k)) + encode_utf8(s.skip(k)),
    decreases k,
{
    encode_utf8_valid_utf8(s);
    assert(s =~= s.take(k) + s.skip(k));
    lemma_encode_concat(s.take(k), s.skip(k));
    if k == 0 {
        assert(s.take(0) =~= Seq::<char>::empty());
    } else {
        encode_utf8_first_scalar(s);
        lemma_encode_scalar(s[0]);
        lemma_boundary(s.drop_first(), k - 1);
        assert(s.drop_first().take(k - 1) =~= s.take(k).drop_first());
        assert(pop_first_scalar(encode_utf8(s)) =~= encode_utf8(s.drop_first()));
    }
}

/// Splits a string before its `k`-th character, which begins at byte `at`.
pub(crate) fn split_text<'a>(s: &'a str, at: usize, k: Ghost<int>) -> (r: (&'a str, &'a str))
    requires
        0 <= k@ <= s@.len(),
        encode_utf8(s@.take(k@)).len() == at,
    ensures
        r.0@ == s@.take(k@),
        r.1@ == s@.skip(k@),
{
    proof {
        lemma_boundary(s@, k@);
    }
    let r = s.split_at(at);
    proof {
        assert(r.0.spec_bytes() =~= encode_utf8(s@.take(k@)));
        assert(r.1.spec_bytes() =~= encode_utf8(s@.skip(k@)));
        lemma_encode_injective(r.0@, s@.take(k@));
        lemma_encode_injective(r.1@, s@.skip(k@));
    }
    r
}

/// The first place of `b` in `bytes`, from `start` on.
pub fn find_byte(bytes: &[u8], start: usize, b: u8) -> (r: Option<usize>)
    requires
        start <= bytes@.len(),
    ensures
        match r {
            Some(i) => start <= i < bytes@.len() && bytes@[i as int] == b && forall|j: int|
                start <= j < i ==> bytes@[j] != b,
            None => forall|j: int| start <= j < bytes@.len() ==> bytes@[j] != b,
        },
{
    let mut i: usize = start;
    while i < bytes.len()
        invariant
            start <= i <= bytes@.len(),
            forall|j: int| start <= j < i ==> bytes@[j] != b,
        decreases bytes@.len() - i,
    {
        if bytes[i] == b {
            return Some(i);
        }
        i += 1;
    }
    None
}

/// The number of bytes of the character that begins with the byte `b`.
pub fn utf8_char_len(b: u8) -> (r: usize)
    ensures
        r == (if is_leading_byte_width_1(b) {
            1int
        } else if is_leading_byte_width_2(b) {
            2
        } else if is_leading_byte_width_3(b) {
            3
        } else {
            4
        }),
        forall|bytes: Seq<u8>| bytes.len() > 0 && bytes[0] == b ==> r == #[trigger]
            length_of_first_scalar(bytes),
{
    if b <= 0x7F {
        1
    } else if 0xC0 <= b && b <= 0xDF {
        2
    } else if 0xE0 <= b && b <= 0xEF {
        3
    } else {
        4
    }
}

} // verus!
