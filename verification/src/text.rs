//! Text as sequences of characters: searching, trimming, splitting, and
//! comparison that ignores ASCII letter case.
use vstd::prelude::*;
use vstd::string::*;
use vstd::utf8::*;

verus! {

broadcast use vstd::string::group_string_axioms;

// ---------------------------------------------------------------------------
// Searching
// ---------------------------------------------------------------------------

/// The first index at or after `from` that holds `x`.
pub open spec fn position<T>(s: Seq<T>, x: T, from: int) -> Option<int>
    decreases s.len() - from,
{
    if from < 0 || from >= s.len() {
        None
    } else if s[from] == x {
        Some(from)
    } else {
        position(s, x, from + 1)
    }
}

/// `pat` stands in `s` at index `i`.
pub open spec fn occurs_at<T>(s: Seq<T>, pat: Seq<T>, i: int) -> bool {
    0 <= i && i + pat.len() <= s.len() && s.subrange(i, i + pat.len()) == pat
}

/// The first index at or after `from` at which `pat` stands in `s`.
pub open spec fn find_from<T>(s: Seq<T>, pat: Seq<T>, from: int) -> Option<int>
    decreases s.len() - from + 1,
{
    if from < 0 || from + pat.len() > s.len() {
        None
    } else if occurs_at(s, pat, from) {
        Some(from)
    } else {
        find_from(s, pat, from + 1)
    }
}

/// `position` gives the least index that holds `x`, if there is one.
pub proof fn position_is_least<T>(s: Seq<T>, x: T, from: int)
    requires
        0 <= from,
    ensures
        match position(s, x, from) {
            Some(i) => from <= i < s.len() && s[i] == x && forall|j: int|
                from <= j < i ==> s[j] != x,
            None => forall|j: int| from <= j < s.len() ==> s[j] != x,
        },
    decreases s.len() - from,
{
    if from < s.len() && s[from] != x {
        position_is_least(s, x, from + 1);
    }
}

/// The index that `position` gives is fixed by what makes it least.
pub proof fn position_unique<T>(s: Seq<T>, x: T, from: int, i: int)
    requires
        0 <= from <= i < s.len(),
        s[i] == x,
        forall|j: int| from <= j < i ==> s[j] != x,
    ensures
        position(s, x, from) == Some(i),
    decreases i - from,
{
    if from < i {
        position_unique(s, x, from + 1, i);
    }
}

/// Where nothing holds `x`, `position` finds nothing.
pub proof fn position_absent<T>(s: Seq<T>, x: T, from: int)
    requires
        0 <= from,
        forall|j: int| from <= j < s.len() ==> s[j] != x,
    ensures
        position(s, x, from) is None,
    decreases s.len() - from,
{
    if from < s.len() {
        position_absent(s, x, from + 1);
    }
}

/// `find_from` gives the least occurrence of `pat`, if there is one.
pub proof fn find_is_least<T>(s: Seq<T>, pat: Seq<T>, from: int)
    requires
        0 <= from,
    ensures
        match find_from(s, pat, from) {
            Some(i) => from <= i && occurs_at(s, pat, i) && forall|j: int|
                from <= j < i ==> !occurs_at(s, pat, j),
            None => forall|j: int| from <= j ==> !occurs_at(s, pat, j),
        },
    decreases s.len() - from + 1,
{
    if from + pat.len() <= s.len() && !occurs_at(s, pat, from) {
        find_is_least(s, pat, from + 1);
    }
}

/// The index that `find_from` gives is fixed by what makes it least.
pub proof fn find_unique<T>(s: Seq<T>, pat: Seq<T>, from: int, i: int)
    requires
        0 <= from <= i,
        occurs_at(s, pat, i),
        forall|j: int| from <= j < i ==> !occurs_at(s, pat, j),
    ensures
        find_from(s, pat, from) == Some(i),
    decreases i - from,
{
    if from < i {
        assert(!occurs_at(s, pat, from));
        find_unique(s, pat, from + 1, i);
    }
}

/// Where `pat` stands nowhere, `find_from` finds nothing.
pub proof fn find_absent<T>(s: Seq<T>, pat: Seq<T>, from: int)
    requires
        0 <= from,
        forall|j: int| from <= j ==> !occurs_at(s, pat, j),
    ensures
        find_from(s, pat, from) is None,
    decreases s.len() - from + 1,
{
    if from + pat.len() <= s.len() {
        assert(!occurs_at(s, pat, from));
        find_absent(s, pat, from + 1);
    }
}

/// Finds a character, as [`position`] says.
pub fn position_char(s: &[char], x: char, from: usize) -> (r: Option<usize>)
    ensures
        match r {
            Some(i) => position(s@, x, from as int) == Some(i as int) && from <= i < s.len(),
            None => position(s@, x, from as int) is None,
        },
{
    let mut i: usize = from;
    while i < s.len()
        invariant
            from <= i,
            position(s@, x, from as int) == position(s@, x, i as int),
        decreases s@.len() - i,
    {
        if s[i] == x {
            return Some(i);
        }
        i += 1;
    }
    None
}

/// Finds a byte, as [`position`] says.
pub fn position_byte(s: &[u8], x: u8, from: usize) -> (r: Option<usize>)
    ensures
        match r {
            Some(i) => position(s@, x, from as int) == Some(i as int) && from <= i < s.len(),
            None => position(s@, x, from as int) is None,
        },
{
    let mut i: usize = from;
    while i < s.len()
        invariant
            from <= i,
            position(s@, x, from as int) == position(s@, x, i as int),
        decreases s@.len() - i,
    {
        if s[i] == x {
            return Some(i);
        }
        i += 1;
    }
    None
}

/// Whether `pat` stands in `s` at index `i`.
pub fn stands_at_chars(s: &[char], pat: &[char], i: usize) -> (r: bool)
    ensures
        r == occurs_at(s@, pat@, i as int),
{
    let total: usize = s.len();
    if i > total || pat.len() > total - i {
        return false;
    }
    let mut k: usize = 0;
    while k < pat.len()
        invariant
            k <= pat@.len(),
            total == s@.len(),
            i + pat@.len() <= total,
            forall|j: int| 0 <= j < k ==> s@[i + j] == pat@[j],
        decreases pat@.len() - k,
    {
        if s[i + k] != pat[k] {
            assert(s@.subrange(i as int, i + pat@.len())[k as int] != pat@[k as int]);
            return false;
        }
        k += 1;
    }
    assert(s@.subrange(i as int, i + pat@.len()) =~= pat@);
    true
}

/// Whether `pat` stands in `s` at index `i`.
pub fn stands_at_bytes(s: &[u8], pat: &[u8], i: usize) -> (r: bool)
    ensures
        r == occurs_at(s@, pat@, i as int),
{
    let total: usize = s.len();
    if i > total || pat.len() > total - i {
        return false;
    }
    let mut k: usize = 0;
    while k < pat.len()
        invariant
            k <= pat@.len(),
            total == s@.len(),
            i + pat@.len() <= total,
            forall|j: int| 0 <= j < k ==> s@[i + j] == pat@[j],
        decreases pat@.len() - k,
    {
        if s[i + k] != pat[k] {
            assert(s@.subrange(i as int, i + pat@.len())[k as int] != pat@[k as int]);
            return false;
        }
        k += 1;
    }
    assert(s@.subrange(i as int, i + pat@.len()) =~= pat@);
    true
}

/// Finds a run of characters, as [`find_from`] says.
pub fn find_chars(s: &[char], pat: &[char], from: usize) -> (r: Option<usize>)
    ensures
        match r {
            Some(i) => find_from(s@, pat@, from as int) == Some(i as int) && from <= i && i
                + pat@.len() <= s.len(),
            None => find_from(s@, pat@, from as int) is None,
        },
{
    if pat.len() > s.len() {
        return None;
    }
    let last: usize = s.len() - pat.len();
    let mut i: usize = from;
    while i <= last
        invariant
            from <= i,
            last == s@.len() - pat@.len(),
            find_from(s@, pat@, from as int) == find_from(s@, pat@, i as int),
        decreases s@.len() - i,
    {
        if stands_at_chars(s, pat, i) {
            return Some(i);
        }
        if i == last {
            assert(find_from(s@, pat@, i + 1) is None);
            return None;
        }
        i += 1;
    }
    None
}

/// Finds a run of bytes, as [`find_from`] says.
pub fn find_bytes(s: &[u8], pat: &[u8], from: usize) -> (r: Option<usize>)
    ensures
        match r {
            Some(i) => find_from(s@, pat@, from as int) == Some(i as int) && from <= i && i
                + pat@.len() <= s.len(),
            None => find_from(s@, pat@, from as int) is None,
        },
{
    if pat.len() > s.len() {
        return None;
    }
    let last: usize = s.len() - pat.len();
    let mut i: usize = from;
    while i <= last
        invariant
            from <= i,
            last == s@.len() - pat@.len(),
            find_from(s@, pat@, from as int) == find_from(s@, pat@, i as int),
        decreases s@.len() - i,
    {
        if stands_at_bytes(s, pat, i) {
            return Some(i);
        }
        if i == last {
            assert(find_from(s@, pat@, i + 1) is None);
            return None;
        }
        i += 1;
    }
    None
}

// ---------------------------------------------------------------------------
// Strings and their characters
// ---------------------------------------------------------------------------

/// `String::push` appends one character, as the standard library documents.
pub assume_specification[ String::push ](s: &mut String, c: char)
    ensures
        final(s)@ == old(s)@.push(c),
;

/// Calls `std::str::from_utf8`, which gives the text that the bytes encode if
/// they are valid UTF-8, and an error otherwise.
#[verifier::external_body]
pub(crate) fn utf8_text(bytes: &[u8]) -> (r: Option<&str>)
    ensures
        r is Some <==> valid_utf8(bytes@),
        r matches Some(text) ==> text@ == decode_utf8(bytes@),
{
    std::str::from_utf8(bytes).ok()
}

/// The characters of a string.
pub fn chars_of(s: &str) -> (r: Vec<char>)
    ensures
        r@ == s@,
{
    let mut out: Vec<char> = Vec::new();
    for c in it: s.chars()
        invariant
            out@ == s@.take(it.index() as int),
            it.seq() == s@,
    {
        out.push(c);
        assert(s@.take(it.index() as int + 1) == s@.take(it.index() as int).push(c));
    }
    assert(s@.take(s@.len() as int) == s@);
    out
}

/// Appends the characters from `from` up to `to` to a string.
pub fn push_chars(out: &mut String, s: &[char], from: usize, to: usize)
    requires
        from <= to <= s@.len(),
    ensures
        final(out)@ == old(out)@ + s@.subrange(from as int, to as int),
{
    let ghost before = out@;
    let mut i: usize = from;
    assert(out@ =~= before + s@.subrange(from as int, i as int));
    while i < to
        invariant
            from <= i <= to <= s@.len(),
            out@ == before + s@.subrange(from as int, i as int),
        decreases to - i,
    {
        out.push(s[i]);
        i += 1;
        assert(out@ =~= before + s@.subrange(from as int, i as int));
    }
}

/// The string with the characters from `from` up to `to`.
pub fn string_between(s: &[char], from: usize, to: usize) -> (r: String)
    requires
        from <= to <= s@.len(),
    ensures
        r@ == s@.subrange(from as int, to as int),
{
    let mut out = String::new();
    push_chars(&mut out, s, from, to);
    assert(out@ =~= s@.subrange(from as int, to as int));
    out
}

/// The string with exactly these characters.
pub fn string_of(s: &[char]) -> (r: String)
    ensures
        r@ == s@,
{
    let r = string_between(s, 0, s.len());
    assert(r@ =~= s@);
    r
}

/// A copy of a slice of characters from `from` up to `to`.
pub fn chars_between(s: &[char], from: usize, to: usize) -> (r: Vec<char>)
    requires
        from <= to <= s@.len(),
    ensures
        r@ == s@.subrange(from as int, to as int),
{
    let mut out: Vec<char> = Vec::new();
    let mut i: usize = from;
    while i < to
        invariant
            from <= i <= to <= s@.len(),
            out@ == s@.subrange(from as int, i as int),
        decreases to - i,
    {
        out.push(s[i]);
        i += 1;
        assert(out@ =~= s@.subrange(from as int, i as int));
    }
    assert(out@ =~= s@.subrange(from as int, to as int));
    out
}

/// Whether two strings hold the same characters.
pub fn same_text(a: &str, b: &str) -> (r: bool)
    ensures
        r == (a@ == b@),
{
    let x = a.as_bytes();
    let y = b.as_bytes();
    proof {
        encode_utf8_decode_utf8(a@);
        encode_utf8_decode_utf8(b@);
    }
    if x.len() != y.len() {
        return false;
    }
    let mut i: usize = 0;
    while i < x.len()
        invariant
            i <= x@.len(),
            x@.len() == y@.len(),
            x@ == a.spec_bytes(),
            y@ == b.spec_bytes(),
            forall|j: int| 0 <= j < i ==> x@[j] == y@[j],
        decreases x@.len() - i,
    {
        if x[i] != y[i] {
            assert(x@ != y@);
            return false;
        }
        i += 1;
    }
    assert(x@ =~= y@);
    true
}

// ---------------------------------------------------------------------------
// ASCII letter case
// ---------------------------------------------------------------------------

/// The lower-case letter of an upper-case ASCII letter; any other character
/// stands for itself.
pub open spec fn ascii_lower(c: char) -> char {
    if 'A' <= c <= 'Z' {
        ((c as u32) + 32) as char
    } else {
        c
    }
}

/// Every character in ASCII lower case.
pub open spec fn lower(s: Seq<char>) -> Seq<char> {
    Seq::new(s.len(), |i: int| ascii_lower(s[i]))
}

/// Equality up to ASCII letter case.
pub open spec fn eq_ignore_case(a: Seq<char>, b: Seq<char>) -> bool {
    lower(a) == lower(b)
}

/// The ASCII lower case of a character.
pub fn lower_char(c: char) -> (r: char)
    ensures
        r == ascii_lower(c),
{
    match c {
        'A' => 'a',
        'B' => 'b',
        'C' => 'c',
        'D' => 'd',
        'E' => 'e',
        'F' => 'f',
        'G' => 'g',
        'H' => 'h',
        'I' => 'i',
        'J' => 'j',
        'K' => 'k',
        'L' => 'l',
        'M' => 'm',
        'N' => 'n',
        'O' => 'o',
        'P' => 'p',
        'Q' => 'q',
        'R' => 'r',
        'S' => 's',
        'T' => 't',
        'U' => 'u',
        'V' => 'v',
        'W' => 'w',
        'X' => 'x',
        'Y' => 'y',
        'Z' => 'z',
        _ => c,
    }
}

/// Compares two runs of characters up to ASCII letter case.
pub fn same_ignoring_case(a: &[char], b: &[char]) -> (r: bool)
    ensures
        r == eq_ignore_case(a@, b@),
{
    if a.len() != b.len() {
        assert(lower(a@).len() != lower(b@).len());
        return false;
    }
    let mut i: usize = 0;
    while i < a.len()
        invariant
            i <= a@.len(),
            a@.len() == b@.len(),
            forall|j: int| 0 <= j < i ==> ascii_lower(a@[j]) == ascii_lower(b@[j]),
        decreases a@.len() - i,
    {
        if lower_char(a[i]) != lower_char(b[i]) {
            assert(lower(a@)[i as int] != lower(b@)[i as int]);
            return false;
        }
        i += 1;
    }
    assert(lower(a@) =~= lower(b@));
    true
}

/// Compares two strings up to ASCII letter case.
pub fn text_eq_ignore_case(a: &str, b: &str) -> (r: bool)
    ensures
        r == eq_ignore_case(a@, b@),
{
    let x = chars_of(a);
    let y = chars_of(b);
    same_ignoring_case(&x, &y)
}

/// Looking for `pat` with `find_from` in `lower(s)` is looking for it in `s`
/// up to the letter case of `s`.
pub fn find_lower(s: &[char], pat: &[char], from: usize) -> (r: Option<usize>)
    ensures
        match r {
            Some(i) => find_from(lower(s@), pat@, from as int) == Some(i as int) && from <= i && i
                + pat@.len() <= s.len(),
            None => find_from(lower(s@), pat@, from as int) is None,
        },
{
    let total: usize = s.len();
    if pat.len() > total {
        return None;
    }
    let last: usize = total - pat.len();
    let mut i: usize = from;
    while i <= last
        invariant
            from <= i,
            total == s@.len(),
            last == total - pat@.len(),
            find_from(lower(s@), pat@, from as int) == find_from(lower(s@), pat@, i as int),
        decreases s@.len() - i,
    {
        let mut k: usize = 0;
        while k < pat.len() && lower_char(s[i + k]) == pat[k]
            invariant
                k <= pat@.len(),
                i <= last,
                total == s@.len(),
                last == total - pat@.len(),
                forall|j: int| 0 <= j < k ==> lower(s@)[i + j] == pat@[j],
            decreases pat@.len() - k,
        {
            k += 1;
        }
        if k == pat.len() {
            assert(lower(s@).subrange(i as int, i + pat@.len()) =~= pat@);
            return Some(i);
        }
        assert(lower(s@).subrange(i as int, i + pat@.len())[k as int] != pat@[k as int]);
        if i == last {
            assert(find_from(lower(s@), pat@, i + 1) is None);
            return None;
        }
        i += 1;
    }
    None
}

// ---------------------------------------------------------------------------
// White space
// ---------------------------------------------------------------------------

/// The characters with the Unicode property `White_Space`.
pub open spec fn is_whitespace(c: char) -> bool {
    ||| '\u{9}' <= c <= '\u{d}'
    ||| c == '\u{20}'
    ||| c == '\u{85}'
    ||| c == '\u{a0}'
    ||| c == '\u{1680}'
    ||| '\u{2000}' <= c <= '\u{200a}'
    ||| c == '\u{2028}'
    ||| c == '\u{2029}'
    ||| c == '\u{202f}'
    ||| c == '\u{205f}'
    ||| c == '\u{3000}'
}

/// The first index at or after `from` whose character is not white space, or
/// the end.
pub open spec fn skip_space(s: Seq<char>, from: int) -> int
    decreases s.len() - from,
{
    if 0 <= from < s.len() && is_whitespace(s[from]) {
        skip_space(s, from + 1)
    } else {
        from
    }
}

/// The end of what is left of the first `to` characters once the white space
/// at their end is dropped.
pub open spec fn drop_space(s: Seq<char>, to: int) -> int
    decreases to,
{
    if 0 < to <= s.len() && is_whitespace(s[to - 1]) {
        drop_space(s, to - 1)
    } else {
        to
    }
}

/// The text without the white space at its two ends.
pub open spec fn trim(s: Seq<char>) -> Seq<char> {
    let from = skip_space(s, 0);
    let to = drop_space(s, s.len() as int);
    if from < to {
        s.subrange(from, to)
    } else {
        Seq::empty()
    }
}

/// Skipping white space goes forward, and not past the end.
pub proof fn skip_space_bounds(s: Seq<char>, from: int)
    requires
        0 <= from <= s.len(),
    ensures
        from <= skip_space(s, from) <= s.len(),
    decreases s.len() - from,
{
    if from < s.len() && is_whitespace(s[from]) {
        skip_space_bounds(s, from + 1);
    }
}

/// Whether a character is white space.
pub fn space_char(c: char) -> (r: bool)
    ensures
        r == is_whitespace(c),
{
    ('\u{9}' <= c && c <= '\u{d}') || c == '\u{20}' || c == '\u{85}' || c == '\u{a0}' || c
        == '\u{1680}' || ('\u{2000}' <= c && c <= '\u{200a}') || c == '\u{2028}' || c == '\u{2029}'
        || c == '\u{202f}' || c == '\u{205f}' || c == '\u{3000}'
}

/// Skips white space, as [`skip_space`] says.
pub fn skip_space_from(s: &[char], from: usize) -> (r: usize)
    requires
        from <= s@.len(),
    ensures
        r == skip_space(s@, from as int),
        from <= r <= s@.len(),
{
    let mut i: usize = from;
    while i < s.len() && space_char(s[i])
        invariant
            from <= i <= s@.len(),
            skip_space(s@, from as int) == skip_space(s@, i as int),
        decreases s@.len() - i,
    {
        i += 1;
    }
    i
}

/// Drops white space at the end, as [`drop_space`] says.
pub fn drop_space_to(s: &[char], to: usize) -> (r: usize)
    requires
        to <= s@.len(),
    ensures
        r == drop_space(s@, to as int),
        r <= to,
{
    let mut i: usize = to;
    while i > 0 && space_char(s[i - 1])
        invariant
            i <= to <= s@.len(),
            drop_space(s@, to as int) == drop_space(s@, i as int),
        decreases i,
    {
        i -= 1;
    }
    i
}

/// The characters without the white space at the two ends.
pub fn trim_chars(s: &[char]) -> (r: Vec<char>)
    ensures
        r@ == trim(s@),
{
    let from = skip_space_from(s, 0);
    let to = drop_space_to(s, s.len());
    if from < to {
        chars_between(s, from, to)
    } else {
        Vec::new()
    }
}

/// The string without the white space at its two ends.
pub fn trim_text(s: &str) -> (r: String)
    ensures
        r@ == trim(s@),
{
    let chars = chars_of(s);
    let kept = trim_chars(&chars);
    string_of(&kept)
}

/// The first index at or after `from` whose character is white space, or the
/// end.
pub open spec fn skip_word(s: Seq<char>, from: int) -> int
    decreases s.len() - from,
{
    if 0 <= from < s.len() && !is_whitespace(s[from]) {
        skip_word(s, from + 1)
    } else {
        from
    }
}

/// Where the first word at or after `from` begins and ends.
pub open spec fn next_word(s: Seq<char>, from: int) -> Option<(int, int)> {
    let start = skip_space(s, from);
    if start < s.len() {
        Some((start, skip_word(s, start)))
    } else {
        None
    }
}

/// Finds the first word at or after `from`.
pub fn find_word(s: &[char], from: usize) -> (r: Option<(usize, usize)>)
    requires
        from <= s@.len(),
    ensures
        match r {
            Some((start, end)) => next_word(s@, from as int) == Some((start as int, end as int))
                && from <= start <= end <= s.len(),
            None => next_word(s@, from as int) is None,
        },
{
    let start = skip_space_from(s, from);
    if start >= s.len() {
        return None;
    }
    let mut i: usize = start;
    while i < s.len() && !space_char(s[i])
        invariant
            start <= i <= s@.len(),
            skip_word(s@, start as int) == skip_word(s@, i as int),
        decreases s@.len() - i,
    {
        i += 1;
    }
    Some((start, i))
}

// ---------------------------------------------------------------------------
// Splitting
// ---------------------------------------------------------------------------

/// What stands between the separators, from `from` on.
pub open spec fn pieces(s: Seq<char>, sep: Seq<char>, from: int) -> Seq<Seq<char>>
    decreases s.len() - from,
    when 0 <= from <= s.len() && sep.len() > 0
{
    match find_from(s, sep, from) {
        Some(at) => {
            proof {
                find_is_least(s, sep, from);
            }
            seq![s.subrange(from, at)] + pieces(s, sep, at + sep.len())
        },
        None => seq![s.subrange(from, s.len() as int)],
    }
}

/// What the strings of a list hold.
pub open spec fn views(list: Seq<String>) -> Seq<Seq<char>> {
    Seq::new(list.len(), |i: int| list[i]@)
}

/// Splits a text at each separator.
pub fn split_chars(s: &[char], sep: &[char]) -> (r: Vec<String>)
    requires
        sep@.len() > 0,
    ensures
        views(r@) == pieces(s@, sep@, 0),
        r@.len() > 0,
{
    let mut out: Vec<String> = Vec::new();
    let mut from: usize = 0;
    assert(views(out@) + pieces(s@, sep@, 0) =~= pieces(s@, sep@, 0));
    loop
        invariant
            sep@.len() > 0,
            from <= s@.len(),
            views(out@) + pieces(s@, sep@, from as int) == pieces(s@, sep@, 0),
        decreases s@.len() - from,
    {
        let ghost before = views(out@);
        match find_chars(s, sep, from) {
            Some(at) => {
                out.push(string_between(s, from, at));
                proof {
                    let piece = s@.subrange(from as int, at as int);
                    assert(views(out@) =~= before.push(piece));
                    assert(before + pieces(s@, sep@, from as int) =~= views(out@) + pieces(
                        s@,
                        sep@,
                        at + sep@.len(),
                    ));
                }
                from = at + sep.len();
            },
            None => {
                out.push(string_between(s, from, s.len()));
                proof {
                    assert(views(out@) =~= before + pieces(s@, sep@, from as int));
                }
                return out;
            },
        }
    }
}

} // verus!
