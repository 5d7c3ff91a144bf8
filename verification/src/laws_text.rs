//! Facts about searching, trimming, splitting and encoding.
use crate::text;
use vstd::prelude::*;
use vstd::utf8::*;

verus! {

broadcast use vstd::string::group_string_axioms;

/// A search that starts behind a front finds what a search in the rest finds.
pub proof fn find_behind<T>(front: Seq<T>, rest: Seq<T>, pat: Seq<T>, from: int)
    requires
        0 <= from,
    ensures
        text::find_from(front + rest, pat, front.len() + from) == match text::find_from(
            rest,
            pat,
            from,
        ) {
            Some(at) => Some(front.len() + at),
            None => None,
        },
    decreases rest.len() - from + 1,
{
    if from + pat.len() <= rest.len() {
        assert((front + rest).subrange(front.len() + from, front.len() + from + pat.len())
            =~= rest.subrange(from, from + pat.len()));
        if !text::occurs_at(rest, pat, from) {
            find_behind(front, rest, pat, from + 1);
        }
    }
}

/// Splitting that starts behind a front splits the rest.
pub proof fn pieces_behind(front: Seq<char>, rest: Seq<char>, sep: Seq<char>, from: int)
    requires
        sep.len() > 0,
        0 <= from <= rest.len(),
    ensures
        text::pieces(front + rest, sep, front.len() + from) == text::pieces(rest, sep, from),
    decreases rest.len() - from,
{
    find_behind(front, rest, sep, from);
    text::find_is_least(rest, sep, from);
    match text::find_from(rest, sep, from) {
        Some(at) => {
            pieces_behind(front, rest, sep, at + sep.len());
            assert((front + rest).subrange(front.len() + from, front.len() + at) =~= rest.subrange(
                from,
                at,
            ));
        },
        None => {
            assert((front + rest).subrange(front.len() + from, (front + rest).len() as int)
                =~= rest.subrange(from, rest.len() as int));
        },
    }
}

/// A line without a carriage return is the first of the lines it begins.
pub proof fn first_line_splits_off(line: Seq<char>, rest: Seq<char>)
    requires
        !line.contains('\r'),
    ensures
        text::pieces(line + seq!['\r', '\n'] + rest, seq!['\r', '\n'], 0) == seq![line]
            + text::pieces(rest, seq!['\r', '\n'], 0),
{
    let sep = seq!['\r', '\n'];
    let whole = line + sep + rest;
    assert(whole.subrange(line.len() as int, line.len() as int + 2) =~= sep);
    assert forall|j: int| 0 <= j < line.len() implies !text::occurs_at(whole, sep, j) by {
        assert(line.contains(line[j]));
        assert(whole.subrange(j, j + 2)[0] == line[j]);
        assert(sep[0] == '\r');
    }
    text::find_unique(whole, sep, 0, line.len() as int);
    pieces_behind(line + sep, rest, sep, 0);
    assert(whole.subrange(0, line.len() as int) =~= line);
}

/// Skipping white space stops at a character that is none.
pub proof fn skip_space_stops(s: Seq<char>, from: int)
    requires
        0 <= from <= s.len(),
    ensures
        text::skip_space(s, from) < s.len() ==> !text::is_whitespace(s[text::skip_space(s, from)]),
        from <= text::skip_space(s, from) <= s.len(),
        forall|j: int| from <= j < text::skip_space(s, from) ==> text::is_whitespace(s[j]),
    decreases s.len() - from,
{
    if from < s.len() && text::is_whitespace(s[from]) {
        skip_space_stops(s, from + 1);
    }
}

/// Dropping white space stops behind a character that is none.
pub proof fn drop_space_stops(s: Seq<char>, to: int)
    requires
        0 <= to <= s.len(),
    ensures
        0 < text::drop_space(s, to) ==> !text::is_whitespace(s[text::drop_space(s, to) - 1]),
        0 <= text::drop_space(s, to) <= to,
        forall|j: int| text::drop_space(s, to) <= j < to ==> text::is_whitespace(s[j]),
    decreases to,
{
    if 0 < to && text::is_whitespace(s[to - 1]) {
        drop_space_stops(s, to - 1);
    }
}

/// A text that neither begins nor ends with white space.
pub open spec fn trimmed(s: Seq<char>) -> bool {
    s.len() == 0 || (!text::is_whitespace(s[0]) && !text::is_whitespace(s.last()))
}

/// Trimming leaves no white space at the ends.
pub proof fn trim_trims(s: Seq<char>)
    ensures
        trimmed(text::trim(s)),
{
    skip_space_stops(s, 0);
    drop_space_stops(s, s.len() as int);
}

/// A text without white space at its ends is its own trimming, also behind a
/// space.
pub proof fn trim_of_trimmed(s: Seq<char>)
    requires
        trimmed(s),
    ensures
        text::trim(s) == s,
        text::trim(seq![' '] + s) == s,
{
    let spaced = seq![' '] + s;
    if s.len() == 0 {
        skip_space_stops(spaced, 0);
        drop_space_stops(spaced, 1);
        assert(text::trim(s) =~= s);
        assert(text::trim(spaced) =~= s);
    } else {
        assert(text::skip_space(s, 0) == 0);
        assert(text::drop_space(s, s.len() as int) == s.len());
        assert(text::trim(s) =~= s);
        assert(spaced[1] == s[0]);
        assert(text::skip_space(spaced, 1) == 1);
        assert(text::skip_space(spaced, 0) == 1);
        assert(spaced.last() == s.last());
        assert(text::drop_space(spaced, spaced.len() as int) == spaced.len());
        assert(text::trim(spaced) =~= s);
    }
}

// ---------------------------------------------------------------------------
// Encoding
// ---------------------------------------------------------------------------

/// A byte of ASCII encodes a character of its own: what stands before it and
/// what stands behind it are the encodings of the two parts of the text.
pub proof fn ascii_byte_is_a_char(s: Seq<char>, j: int) -> (k: int)
    requires
        0 <= j < encode_utf8(s).len(),
        encode_utf8(s)[j] < 0x80,
    ensures
        0 <= k < s.len(),
        s[k] as u32 == encode_utf8(s)[j] as u32,
        encode_utf8(s.take(k)).len() == j,
    decreases s.len(),
{
    let head = encode_scalar(s[0] as u32);
    let c = s[0] as u32;
    if j < head.len() {
        if c >= 0x80 {
            crate::bytes::wide_scalar_bytes(c);
            assert(head[j] >= 0x80);
        }
        assert(leading_byte_width_1(c) == c as u8) by (bit_vector)
            requires
                c < 0x80,
        ;
        assert(s.take(0) =~= Seq::<char>::empty());
        0
    } else {
        let rest = s.drop_first();
        assert(encode_utf8(rest)[j - head.len()] == encode_utf8(s)[j]);
        let k = ascii_byte_is_a_char(rest, j - head.len());
        assert(s.take(k + 1).drop_first() =~= rest.take(k));
        assert(s.take(k + 1)[0] == s[0]);
        k + 1
    }
}

/// The encodings of longer fronts are longer.
pub proof fn encode_grows(s: Seq<char>, a: int, b: int)
    requires
        0 <= a < b <= s.len(),
    ensures
        encode_utf8(s.take(a)).len() < encode_utf8(s.take(b)).len(),
    decreases b,
{
    let front = s.take(a);
    let back = s.subrange(a, b);
    assert(s.take(b) =~= front + back);
    crate::bytes::encode_concat(front, back);
    assert(encode_utf8(back).len() > 0) by {
        assert(encode_scalar(back[0] as u32).len() > 0);
    }
}

} // verus!
