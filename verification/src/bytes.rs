//! Text as the bytes that encode it.
use crate::text;
use vstd::prelude::*;
use vstd::string::*;
use vstd::utf8::*;

verus! {

broadcast use vstd::string::group_string_axioms;

/// The lower-case byte of an upper-case ASCII letter; any other byte stands
/// for itself.
pub open spec fn lower_byte(b: u8) -> u8 {
    if 65 <= b <= 90 {
        (b + 32) as u8
    } else {
        b
    }
}

/// Every byte in ASCII lower case.
pub open spec fn lower_bytes(s: Seq<u8>) -> Seq<u8> {
    Seq::new(s.len(), |i: int| lower_byte(s[i]))
}

/// The encoding of two texts in a row is the two encodings in a row.
pub proof fn encode_concat(a: Seq<char>, b: Seq<char>)
    ensures
        encode_utf8(a + b) == encode_utf8(a) + encode_utf8(b),
    decreases a.len(),
{
    if a.len() == 0 {
        assert(a + b =~= b);
        assert(encode_utf8(a) =~= Seq::<u8>::empty());
        assert(encode_utf8(a) + encode_utf8(b) =~= encode_utf8(b));
    } else {
        assert((a + b).drop_first() =~= a.drop_first() + b);
        encode_concat(a.drop_first(), b);
        assert(encode_utf8(a + b) =~= encode_utf8(a) + encode_utf8(b));
    }
}

/// A character outside ASCII is encoded by bytes outside ASCII.
pub proof fn wide_scalar_bytes(c: u32)
    requires
        c >= 0x80,
    ensures
        forall|i: int| 0 <= i < encode_scalar(c).len() ==> #[trigger] encode_scalar(c)[i] >= 0x80,
{
    assert(leading_byte_width_2(c) >= 0x80) by (bit_vector);
    assert(leading_byte_width_3(c) >= 0x80) by (bit_vector);
    assert(leading_byte_width_4(c) >= 0x80) by (bit_vector);
    assert(last_continuation_byte(c) >= 0x80) by (bit_vector);
    assert(second_last_continuation_byte(c) >= 0x80) by (bit_vector);
    assert(third_last_continuation_byte(c) >= 0x80) by (bit_vector);
}

/// Lower case may be taken of the text or of its bytes.
pub proof fn encode_lower(s: Seq<char>)
    ensures
        encode_utf8(text::lower(s)) == lower_bytes(encode_utf8(s)),
    decreases s.len(),
{
    if s.len() == 0 {
        assert(text::lower(s) =~= s);
        assert(lower_bytes(encode_utf8(s)) =~= encode_utf8(s));
    } else {
        let c = s[0];
        let low = text::ascii_lower(c);
        assert(text::lower(s).drop_first() =~= text::lower(s.drop_first()));
        encode_lower(s.drop_first());
        let head = encode_scalar(c as u32);
        assert(encode_scalar(low as u32) =~= lower_bytes(head)) by {
            if (c as u32) < 0x80 {
                let x = c as u32;
                let y = low as u32;
                assert(leading_byte_width_1(x) == x as u8) by (bit_vector)
                    requires
                        x < 0x80,
                ;
                assert(leading_byte_width_1(y) == y as u8) by (bit_vector)
                    requires
                        y < 0x80,
                ;
            } else {
                wide_scalar_bytes(c as u32);
            }
        }
        assert(encode_utf8(text::lower(s)) =~= lower_bytes(encode_utf8(s)));
    }
}

/// Appends the bytes of a text.
pub fn push_text(out: &mut Vec<u8>, s: &str)
    ensures
        final(out)@ == old(out)@ + encode_utf8(s@),
{
    push_bytes(out, s.as_bytes());
}

/// Appends bytes.
pub fn push_bytes(out: &mut Vec<u8>, s: &[u8])
    ensures
        final(out)@ == old(out)@ + s@,
{
    let ghost before = out@;
    out.extend_from_slice(s);
    assert(out@ =~= before + s@);
}

} // verus!
