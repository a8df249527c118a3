use vstd::prelude::*;
use vstd::utf8::*;

use crate::error::{invalid_data, CodecError};
use crate::guards::{check_len_str, spec_check_len_str};

verus! {

/// The given character sequence with every trailing `'\0'` removed. Embedded
/// `'\0'` characters before the last non-zero character are kept.
pub open spec fn strip_trailing_nuls(cs: Seq<char>) -> Seq<char>
    decreases cs.len(),
{
    if cs.len() > 0 && cs.last() == '\0' {
        strip_trailing_nuls(cs.drop_last())
    } else {
        cs
    }
}

/// Declares `core::str::Utf8Error`, the error type of `core::str::from_utf8`.
/// A value of it is never inspected: it is dropped and mapped to the
/// library's own `InvalidData` failure.
#[verifier::external_type_specification]
#[verifier::external_body]
pub struct ExUtf8Error(core::str::Utf8Error);

/// Relies on `core::str::from_utf8`: it returns `Ok` exactly on the byte
/// slices that are valid UTF-8, and the returned text is backed by exactly
/// the input bytes.
pub assume_specification[ core::str::from_utf8 ](v: &[u8]) -> (r: Result<
    &str,
    core::str::Utf8Error,
>)
    ensures
        r is Ok <==> valid_utf8(v@),
        r matches Ok(s) ==> encode_utf8(s@) == v@,
;

/// The UTF-8 encoding of a nonempty character sequence is the encoding of
/// all but its last character followed by the encoding of its last character.
proof fn lemma_encode_utf8_last(cs: Seq<char>)
    requires
        cs.len() > 0,
    ensures
        encode_utf8(cs) == encode_utf8(cs.drop_last()) + encode_scalar(cs.last() as u32),
    decreases cs.len(),
{
    if cs.len() == 1 {
        assert(cs.drop_last() =~= Seq::<char>::empty());
        assert(cs.drop_first() =~= Seq::<char>::empty());
        assert(encode_utf8(cs) =~= encode_utf8(cs.drop_last()) + encode_scalar(
            cs.last() as u32,
        ));
    } else {
        let tail = cs.drop_first();
        lemma_encode_utf8_last(tail);
        assert(cs.drop_last().len() > 0);
        assert(cs.drop_last().drop_first() =~= tail.drop_last());
        assert(cs.drop_last()[0] == cs[0]);
        assert(tail.last() == cs.last());
        assert(encode_utf8(cs) =~= encode_utf8(cs.drop_last()) + encode_scalar(
            cs.last() as u32,
        ));
    }
}

/// A character's UTF-8 encoding is never empty; it ends in a zero byte only
/// for the character `'\0'`, whose encoding is exactly one zero byte.
proof fn lemma_encode_scalar_nul(c: char)
    ensures
        encode_scalar(c as u32).len() > 0,
        c != '\0' ==> encode_scalar(c as u32).last() != 0u8,
        encode_scalar('\0' as u32) == seq![0u8],
{
    char_is_scalar(c);
    let v = c as u32;
    if c != '\0' {
        assert(v != 0) by {
            if v == 0 {
                char_u32_cast(c, 0u32);
                assert('\0' as u32 == 0u32);
                char_u32_cast('\0', 0u32);
            }
        }
        if has_width_1_encoding(v) {
            assert(leading_byte_width_1(v) != 0u8) by (bit_vector)
                requires
                    v != 0 && v <= 0x7f,
            ;
        } else {
            assert(last_continuation_byte(v) != 0u8) by (bit_vector);
        }
    }
    assert('\0' as u32 == 0u32);
    assert(has_width_1_encoding(0u32));
    assert(leading_byte_width_1(0u32) == 0u8) by (bit_vector);
    assert(encode_scalar(0u32) =~= seq![0u8]);
}

/// A sequence of zero bytes is valid UTF-8 and decodes to the same number of
/// `'\0'` characters.
proof fn lemma_all_zero_utf8(z: Seq<u8>)
    requires
        forall|j: int| 0 <= j < z.len() ==> z[j] == 0u8,
    ensures
        valid_utf8(z),
        decode_utf8(z).len() == z.len(),
        forall|i: int| 0 <= i < z.len() ==> decode_utf8(z)[i] == '\0',
    decreases z.len(),
{
    if z.len() > 0 {
        assert(z[0] == 0u8);
        assert(is_leading_byte_width_1(0u8));
        assert(codepoint_width_1(0u8) == 0u32) by (bit_vector);
        assert(valid_first_scalar(z));
        assert(length_of_first_scalar(z) == 1);
        let rest = pop_first_scalar(z);
        assert(rest =~= z.subrange(1, z.len() as int));
        lemma_all_zero_utf8(rest);
        assert(valid_utf8(z));
        assert(decode_first_scalar(z) == 0u32);
        assert(0u32 as char == '\0');
        assert(decode_utf8(z) == seq!['\0'] + decode_utf8(rest));
    }
}

/// Stripping trailing `'\0'` characters from a sequence that is a text with
/// no trailing `'\0'` followed by a block of `'\0'` characters removes
/// exactly that block.
proof fn lemma_strip_trailing_nuls_append(cs: Seq<char>, tail: Seq<char>)
    requires
        cs.len() == 0 || cs.last() != '\0',
        forall|j: int| 0 <= j < tail.len() ==> tail[j] == '\0',
    ensures
        strip_trailing_nuls(cs + tail) == cs,
    decreases tail.len(),
{
    if tail.len() == 0 {
        assert(cs + tail =~= cs);
    } else {
        let shorter = tail.drop_last();
        assert((cs + tail).len() > 0);
        assert((cs + tail).last() == '\0');
        assert((cs + tail).drop_last() =~= cs + shorter);
        lemma_strip_trailing_nuls_append(cs, shorter);
    }
}

/// A valid UTF-8 byte sequence whose last byte is not zero decodes to a
/// nonempty text whose last character is not `'\0'`.
proof fn lemma_decode_last_not_nul(p: Seq<u8>)
    requires
        valid_utf8(p),
        p.len() > 0,
        p.last() != 0u8,
    ensures
        decode_utf8(p).len() > 0,
        decode_utf8(p).last() != '\0',
{
    let cs = decode_utf8(p);
    decode_utf8_encode_utf8(p);
    if cs.len() == 0 {
        assert(encode_utf8(cs).len() == 0);
        assert(false);
    }
    lemma_encode_utf8_last(cs);
    lemma_encode_scalar_nul(cs.last());
    if cs.last() == '\0' {
        assert(p.last() == 0u8);
        assert(false);
    }
}

/// Trimming trailing zero bytes before decoding matches decoding the whole
/// sequence and then trimming trailing `'\0'` characters: for a valid UTF-8
/// sequence whose bytes from `end` on are zero and whose byte just before
/// `end` is not, `end` is a character boundary and the decoded prefix is the
/// trimmed decoding of the whole.
proof fn lemma_zero_trim_decode(b: Seq<u8>, end: int)
    requires
        valid_utf8(b),
        0 <= end <= b.len(),
        forall|j: int| end <= j < b.len() ==> b[j] == 0u8,
        end > 0 ==> b[end - 1] != 0u8,
    ensures
        is_char_boundary(b, end),
        valid_utf8(b.subrange(0, end)),
        strip_trailing_nuls(decode_utf8(b)) == decode_utf8(b.subrange(0, end)),
{
    if end == b.len() {
        is_char_boundary_start_end_of_seq(b);
        assert(b.subrange(0, end) =~= b);
        if b.len() > 0 {
            lemma_decode_last_not_nul(b);
        }
    } else {
        assert(b[end] == 0u8);
        assert(!is_continuation_byte(0u8));
        is_char_boundary_iff_not_is_continuation_byte(b, end);
        valid_utf8_split(b, end);
        decode_utf8_split(b, end);
        let pre = b.subrange(0, end);
        let suf = b.subrange(end, b.len() as int);
        lemma_all_zero_utf8(suf);
        if end == 0 {
            assert(pre =~= Seq::<u8>::empty());
            assert(decode_utf8(pre).len() == 0);
        } else {
            assert(pre.last() == b[end - 1]);
            lemma_decode_last_not_nul(pre);
        }
        lemma_strip_trailing_nuls_append(decode_utf8(pre), decode_utf8(suf));
        assert(decode_utf8(b) == decode_utf8(pre) + decode_utf8(suf));
    }
}

/// A buffer of all zero bytes is valid UTF-8 and decodes, after trimming, to
/// the empty text: reading such a buffer is not a failure.
pub proof fn lemma_all_zero_strips_empty(b: Seq<u8>)
    requires
        forall|j: int| 0 <= j < b.len() ==> b[j] == 0u8,
    ensures
        valid_utf8(b),
        strip_trailing_nuls(decode_utf8(b)) == Seq::<char>::empty(),
{
    lemma_all_zero_utf8(b);
    lemma_zero_trim_decode(b, 0);
    assert(b.subrange(0, 0) =~= Seq::<u8>::empty());
    assert(decode_utf8(b.subrange(0, 0)).len() == 0);
    assert(decode_utf8(b.subrange(0, 0)) =~= Seq::<char>::empty());
}

/// Round trip: a buffer that holds a text's UTF-8 bytes, then a zero
/// terminator, then zero padding decodes back to exactly that text, provided
/// the text itself contains no `'\0'` character.
pub proof fn lemma_set_get_round_trip(s: Seq<char>, b: Seq<u8>)
    requires
        !s.contains('\0'),
        encode_utf8(s).len() < b.len(),
        b.subrange(0, encode_utf8(s).len() as int) == encode_utf8(s),
        forall|i: int| encode_utf8(s).len() <= i < b.len() ==> b[i] == 0u8,
    ensures
        valid_utf8(b),
        strip_trailing_nuls(decode_utf8(b)) == s,
{
    let n = encode_utf8(s).len() as int;
    let pre = b.subrange(0, n);
    let suf = b.subrange(n, b.len() as int);
    encode_utf8_valid_utf8(s);
    lemma_all_zero_utf8(suf);
    assert(b =~= pre + suf);
    valid_utf8_concat(pre, suf);
    if n > 0 {
        assert(s.len() > 0) by {
            if s.len() == 0 {
                assert(encode_utf8(s).len() == 0);
            }
        }
        assert(s.last() != '\0') by {
            if s.last() == '\0' {
                assert(s.contains('\0')) by {
                    assert(s[s.len() - 1] == '\0');
                }
            }
        }
        lemma_encode_utf8_last(s);
        lemma_encode_scalar_nul(s.last());
        assert(encode_utf8(s).last() != 0u8);
        assert(b[n - 1] == encode_utf8(s).last());
    }
    lemma_zero_trim_decode(b, n);
    encode_utf8_decode_utf8(s);
}

/// Encodes `src` into the fixed buffer `dst` as a null-terminated string.
/// Succeeds exactly when the text's byte length plus a terminator fit
/// strictly below `N`; then bytes `0..len` hold the text's UTF-8 bytes, byte
/// `len` is zero, and the bytes past the terminator keep their old values.
/// Otherwise fails with `InvalidInput` and leaves `dst` untouched.
pub fn safe_set_str<const N: usize>(dst: &mut [u8; N], src: &str) -> (r: Result<(), CodecError>)
    ensures
        r == spec_check_len_str(src@, N as nat),
        r is Ok <==> encode_utf8(src@).len() + 1 < N,
        r is Err ==> final(dst)@ == old(dst)@,
        r is Ok ==> final(dst)@.subrange(0, encode_utf8(src@).len() as int) == encode_utf8(src@)
            && final(dst)@[encode_utf8(src@).len() as int] == 0u8 && (forall|i: int|
            encode_utf8(src@).len() + 1 <= i < N ==> final(dst)@[i] == old(dst)@[i]),
{
    match check_len_str(src, &*dst) {
        Err(e) => Err(e),
        Ok(()) => {
            let b = src.as_bytes();
            let n = b.len();
            let mut i: usize = 0;
            while i < n
                invariant
                    i <= n,
                    n + 1 < N,
                    b@ == encode_utf8(src@),
                    n == b@.len(),
                    dst@.subrange(0, i as int) == b@.subrange(0, i as int),
                    forall|j: int| i <= j < N ==> dst@[j] == old(dst)@[j],
                decreases n - i,
            {
                dst[i] = b[i];
                proof {
                    assert(dst@.subrange(0, i + 1) =~= b@.subrange(0, i + 1));
                }
                i = i + 1;
            }
            dst[n] = 0;
            proof {
                assert(dst@.subrange(0, n as int) =~= b@.subrange(0, n as int));
                assert(b@.subrange(0, n as int) =~= b@);
            }
            Ok(())
        },
    }
}

/// Decodes a fixed buffer holding a null-terminated string back into text.
/// Fails with `InvalidData` exactly when the bytes are not valid UTF-8; on
/// success returns the decoded text with all trailing zero characters
/// stripped, keeping any embedded zero characters before the last non-zero
/// content.
pub fn safe_get_str<'a>(src: &'a [u8]) -> (r: Result<&'a str, CodecError>)
    ensures
        r is Ok <==> valid_utf8(src@),
        r matches Err(e) ==> e == CodecError::InvalidData,
        r matches Ok(s) ==> s@ == strip_trailing_nuls(decode_utf8(src@)),
{
    match core::str::from_utf8(src) {
        Err(_) => Err(invalid_data()),
        Ok(s) => {
            let mut end: usize = src.len();
            while end > 0 && src[end - 1] == 0
                invariant
                    end <= src@.len(),
                    forall|j: int| end <= j < src@.len() ==> src@[j] == 0u8,
                decreases end,
            {
                end = end - 1;
            }
            proof {
                lemma_zero_trim_decode(src@, end as int);
                assert(encode_utf8(s@) == src@);
            }
            let (head, _) = s.split_at(end);
            proof {
                assert(encode_utf8(head@) == src@.subrange(0, end as int));
                encode_utf8_decode_utf8(head@);
            }
            Ok(head)
        },
    }
}

} // verus!
