//! What texts and numbers are read as, on every text of a form.
use crate::numbers;
use crate::text;
use vstd::prelude::*;

verus! {

// ---------------------------------------------------------------------------
// Places
// ---------------------------------------------------------------------------

/// A pattern stands where each of its items stands.
pub proof fn occurrences_are_item_by_item<T>(s: Seq<T>, pat: Seq<T>, i: int)
    ensures
        text::occurs_at(s, pat, i) <==> 0 <= i && i + pat.len() <= s.len() && forall|j: int|
            0 <= j < pat.len() ==> s[i + j] == #[trigger] pat[j],
{
    if 0 <= i && i + pat.len() <= s.len() {
        let found = s.subrange(i, i + pat.len());
        if found == pat {
            assert forall|j: int| 0 <= j < pat.len() implies s[i + j] == #[trigger] pat[j] by {
                assert(found[j] == s[i + j]);
            }
        }
        if forall|j: int| 0 <= j < pat.len() ==> s[i + j] == #[trigger] pat[j] {
            assert(found =~= pat);
        }
    }
}

/// What is put behind a front that does not hold it is found behind the front.
pub proof fn found_behind_a_front<T>(front: Seq<T>, pat: Seq<T>, rest: Seq<T>)
    requires
        forall|j: int| 0 <= j < front.len() ==> !text::occurs_at(front + pat, pat, j),
    ensures
        text::find_from(front + pat + rest, pat, 0) == Some(front.len() as int),
{
    let whole = front + pat + rest;
    let n = front.len() as int;
    assert(whole.subrange(n, n + pat.len()) =~= pat);
    assert forall|j: int| 0 <= j < n implies !text::occurs_at(whole, pat, j) by {
        assert(!text::occurs_at(front + pat, pat, j));
        assert(whole.subrange(j, j + pat.len()) =~= (front + pat).subrange(j, j + pat.len()));
    }
    text::find_unique(whole, pat, 0, n);
}

/// An item behind a front without it is found behind the front.
pub proof fn item_behind_a_front<T>(before: Seq<T>, front: Seq<T>, x: T, rest: Seq<T>)
    requires
        !front.contains(x),
    ensures
        text::position(before + front + seq![x] + rest, x, before.len() as int) == Some(
            (before.len() + front.len()) as int,
        ),
{
    let whole = before + front + seq![x] + rest;
    let at = before.len() + front.len();
    assert forall|j: int| before.len() <= j < at implies whole[j] != x by {
        assert(front.contains(front[j - before.len()]));
    }
    assert(whole[at as int] == x);
    text::position_unique(whole, x, before.len() as int, at as int);
}

// ---------------------------------------------------------------------------
// Letters
// ---------------------------------------------------------------------------

/// Lower case moves the upper-case ASCII letters by 32 and nothing else.
pub proof fn lower_case_moves_letters(c: char)
    ensures
        text::ascii_lower(c) as int == if 65 <= c as int <= 90 {
            c as int + 32
        } else {
            c as int
        },
{
}

/// Two texts are the same up to letter case if they are so letter by letter.
pub proof fn letter_case_is_letter_by_letter(a: Seq<char>, b: Seq<char>)
    ensures
        text::lower(a).len() == a.len(),
        forall|i: int|
            0 <= i < a.len() ==> #[trigger] text::lower(a)[i] == text::ascii_lower(a[i]),
        text::eq_ignore_case(a, b) <==> a.len() == b.len() && forall|i: int|
            0 <= i < a.len() ==> text::ascii_lower(#[trigger] a[i]) == text::ascii_lower(b[i]),
{
    if text::eq_ignore_case(a, b) {
        assert(text::lower(a).len() == text::lower(b).len());
        assert forall|i: int| 0 <= i < a.len() implies text::ascii_lower(#[trigger] a[i])
            == text::ascii_lower(b[i]) by {
            assert(text::lower(a)[i] == text::lower(b)[i]);
        }
    }
    if a.len() == b.len() && forall|i: int|
        0 <= i < a.len() ==> text::ascii_lower(#[trigger] a[i]) == text::ascii_lower(b[i]) {
        assert(text::lower(a) =~= text::lower(b));
    }
}

// ---------------------------------------------------------------------------
// White space
// ---------------------------------------------------------------------------

/// The characters that are white space, by their numbers.
pub proof fn white_space_by_number(c: char)
    ensures
        text::is_whitespace(c) <==> {
            let n = c as int;
            9 <= n <= 13 || n == 32 || n == 0x85 || n == 0xa0 || n == 0x1680 || 0x2000 <= n
                <= 0x200a || n == 0x2028 || n == 0x2029 || n == 0x202f || n == 0x205f || n
                == 0x3000
        },
{
}

/// Every character is white space.
pub open spec fn blank(s: Seq<char>) -> bool {
    forall|i: int| 0 <= i < s.len() ==> text::is_whitespace(#[trigger] s[i])
}

/// Skipping white space behind a front goes over a run of it.
pub proof fn skip_space_over(front: Seq<char>, space: Seq<char>, rest: Seq<char>)
    requires
        blank(space),
        rest.len() > 0 ==> !text::is_whitespace(rest[0]),
    ensures
        text::skip_space(front + space + rest, front.len() as int) == front.len() + space.len(),
    decreases space.len(),
{
    let whole = front + space + rest;
    if space.len() > 0 {
        assert(text::is_whitespace(space[0]));
        assert(whole[front.len() as int] == space[0]);
        let more = front.push(space[0]);
        let left = space.drop_first();
        assert(whole =~= more + left + rest);
        assert forall|i: int| 0 <= i < left.len() implies text::is_whitespace(
            #[trigger] left[i],
        ) by {
            assert(left[i] == space[i + 1]);
        }
        skip_space_over(more, left, rest);
    } else if rest.len() > 0 {
        assert(whole[front.len() as int] == rest[0]);
    }
}

/// Dropping white space goes back over a run of it.
proof fn drop_space_over(front: Seq<char>, space: Seq<char>)
    requires
        blank(space),
        front.len() > 0 ==> !text::is_whitespace(front.last()),
    ensures
        text::drop_space(front + space, (front + space).len() as int) == front.len(),
{
    let whole = front + space;
    drop_space_back(whole, front.len() as int, whole.len() as int);
}

/// Dropping white space goes back to where it begins.
proof fn drop_space_back(s: Seq<char>, from: int, to: int)
    requires
        0 <= from <= to <= s.len(),
        forall|j: int| from <= j < to ==> text::is_whitespace(#[trigger] s[j]),
        from > 0 ==> !text::is_whitespace(s[from - 1]),
    ensures
        text::drop_space(s, to) == from,
    decreases to - from,
{
    if to > from {
        assert(text::is_whitespace(s[to - 1]));
        drop_space_back(s, from, to - 1);
    }
}

/// Trimming takes off the white space at the two ends and leaves all the rest.
pub proof fn trim_takes_off_the_ends(before: Seq<char>, kept: Seq<char>, behind: Seq<char>)
    requires
        blank(before),
        blank(behind),
        kept.len() > 0,
        !text::is_whitespace(kept[0]),
        !text::is_whitespace(kept.last()),
    ensures
        text::trim(before + kept + behind) == kept,
{
    let whole = before + kept + behind;
    skip_space_over(Seq::empty(), before, kept + behind);
    assert(Seq::<char>::empty() + before + (kept + behind) =~= whole);
    drop_space_over(before + kept, behind);
    assert(whole.subrange(before.len() as int, (before.len() + kept.len()) as int) =~= kept);
}

/// Of white space alone trimming leaves nothing.
pub proof fn trim_of_white_space(s: Seq<char>)
    requires
        blank(s),
    ensures
        text::trim(s).len() == 0,
{
    skip_space_over(Seq::empty(), s, Seq::empty());
    assert(Seq::<char>::empty() + s + Seq::<char>::empty() =~= s);
    crate::laws_text::drop_space_stops(s, s.len() as int);
}

// ---------------------------------------------------------------------------
// Parts
// ---------------------------------------------------------------------------

/// A text is split at its first separator, and what stands behind it is split
/// in turn.
pub proof fn first_part_splits_off(part: Seq<char>, sep: Seq<char>, rest: Seq<char>)
    requires
        sep.len() > 0,
        forall|j: int| 0 <= j < part.len() ==> !text::occurs_at(part + sep, sep, j),
    ensures
        text::pieces(part + sep + rest, sep, 0) == seq![part] + text::pieces(rest, sep, 0),
{
    found_behind_a_front(part, sep, rest);
    crate::laws_text::pieces_behind(part + sep, rest, sep, 0);
    assert((part + sep + rest).subrange(0, part.len() as int) =~= part);
}

/// A text without the separator is one part.
pub proof fn one_part_without_separator(s: Seq<char>, sep: Seq<char>)
    requires
        sep.len() > 0,
        forall|j: int| 0 <= j < s.len() ==> !text::occurs_at(s, sep, j),
    ensures
        text::pieces(s, sep, 0) == seq![s],
{
    text::find_absent(s, sep, 0);
    assert(s.subrange(0, s.len() as int) =~= s);
}

/// A list with commas is split at each comma.
pub proof fn lists_split_at_commas(part: Seq<char>, rest: Seq<char>)
    requires
        !part.contains(','),
    ensures
        text::pieces(part + seq![','] + rest, seq![','], 0) == seq![part] + text::pieces(
            rest,
            seq![','],
            0,
        ),
        text::pieces(part, seq![','], 0) == seq![part],
{
    let sep = seq![','];
    assert forall|j: int| 0 <= j < part.len() implies !text::occurs_at(part + sep, sep, j) by {
        assert(part.contains(part[j]));
        assert((part + sep).subrange(j, j + 1)[0] == part[j]);
        assert(sep[0] == ',');
    }
    assert forall|j: int| 0 <= j < part.len() implies !text::occurs_at(part, sep, j) by {
        assert(part.contains(part[j]));
        assert(part.subrange(j, j + 1)[0] == part[j]);
        assert(sep[0] == ',');
    }
    first_part_splits_off(part, sep, rest);
    one_part_without_separator(part, sep);
}

/// The next word is what stands between white space.
pub proof fn words_stand_between_white_space(
    front: Seq<char>,
    space: Seq<char>,
    word: Seq<char>,
    rest: Seq<char>,
)
    requires
        blank(space),
        word.len() > 0,
        forall|i: int| 0 <= i < word.len() ==> !text::is_whitespace(#[trigger] word[i]),
        rest.len() > 0 ==> text::is_whitespace(rest[0]),
    ensures
        text::next_word(front + space + word + rest, front.len() as int) == Some(
            (
                (front.len() + space.len()) as int,
                (front.len() + space.len() + word.len()) as int,
            ),
        ),
{
    let whole = front + space + word + rest;
    let start = front.len() + space.len();
    assert(!text::is_whitespace(word[0]));
    skip_space_over(front, space, word + rest);
    assert(front + space + (word + rest) =~= whole);
    assert forall|j: int| start <= j < start + word.len() implies !text::is_whitespace(
        #[trigger] whole[j],
    ) by {
        assert(whole[j] == word[j - start]);
    }
    if rest.len() > 0 {
        assert(whole[(start + word.len()) as int] == rest[0]);
    }
    skip_word_to(whole, start as int, (start + word.len()) as int);
}

/// A word ends at white space or at the end.
proof fn skip_word_to(s: Seq<char>, from: int, to: int)
    requires
        0 <= from <= to <= s.len(),
        forall|j: int| from <= j < to ==> !text::is_whitespace(#[trigger] s[j]),
        to < s.len() ==> text::is_whitespace(s[to]),
    ensures
        text::skip_word(s, from) == to,
    decreases to - from,
{
    if from < to {
        assert(!text::is_whitespace(s[from]));
        skip_word_to(s, from + 1, to);
    }
}

// ---------------------------------------------------------------------------
// Numbers
// ---------------------------------------------------------------------------

/// What a digit is worth, or the radix where it is none.
pub open spec fn worth(c: char, radix: nat) -> nat {
    let n = c as int;
    let v: int = if 48 <= n <= 57 {
        n - 48
    } else if 65 <= n <= 90 {
        n - 55
    } else if 97 <= n <= 122 {
        n - 87
    } else {
        radix as int
    };
    if v < radix {
        v as nat
    } else {
        radix
    }
}

/// Every character is a digit.
pub open spec fn all_digits(s: Seq<char>, radix: nat) -> bool {
    forall|i: int| 0 <= i < s.len() ==> worth(#[trigger] s[i], radix) < radix
}

/// What digits in a row are worth, each place counting `radix` times the next.
pub open spec fn worth_of(s: Seq<char>, radix: nat) -> nat
    decreases s.len(),
{
    if s.len() == 0 {
        0
    } else {
        worth_of(s.drop_last(), radix) * radix + worth(s.last(), radix)
    }
}

/// The value of digits is what they are worth, and other characters have none.
proof fn digits_are_worth(s: Seq<char>, radix: nat)
    requires
        radix == 10 || radix == 16,
    ensures
        numbers::digits_value(s, radix) == if all_digits(s, radix) {
            Some(worth_of(s, radix))
        } else {
            None
        },
    decreases s.len(),
{
    if s.len() > 0 {
        let front = s.drop_last();
        digits_are_worth(front, radix);
        if all_digits(s, radix) {
            assert forall|i: int| 0 <= i < front.len() implies worth(#[trigger] front[i], radix)
                < radix by {
                assert(front[i] == s[i]);
            }
            assert(worth(s[s.len() - 1], radix) < radix);
        } else if all_digits(front, radix) {
            assert forall|i: int| 0 <= i < s.len() && worth(s.last(), radix) < radix implies worth(
                #[trigger] s[i],
                radix,
            ) < radix by {
                if i < front.len() {
                    assert(worth(front[i], radix) < radix);
                }
            }
        }
    }
}

/// A number is read from its digits alone, with a plus sign before them or
/// none, and only up to the greatest that is allowed: there must be a digit,
/// and nothing but digits.
pub proof fn numbers_are_their_digits(s: Seq<char>, radix: nat, max: nat)
    requires
        radix == 10 || radix == 16,
        s.len() > 0 ==> s[0] != '+',
    ensures
        numbers::parse_unsigned(s, radix, max) == if s.len() > 0 && all_digits(s, radix)
            && worth_of(s, radix) <= max {
            Some(worth_of(s, radix))
        } else {
            None
        },
        numbers::parse_unsigned(seq!['+'] + s, radix, max) == numbers::parse_unsigned(
            s,
            radix,
            max,
        ),
{
    digits_are_worth(s, radix);
    assert((seq!['+'] + s).skip(1) =~= s);
}

/// Numbers are written with the digits `0` to `9` and `A` to `F`, the last one
/// last and none too many.
pub proof fn numbers_are_written_place_by_place(n: nat)
    ensures
        numbers::decimal(n) == if n < 10 {
            seq![(48 + n) as char]
        } else {
            numbers::decimal(n / 10).push((48 + n % 10) as char)
        },
        numbers::hex(n) == if n < 16 {
            seq![(if n < 10 { 48 + n } else { 55 + n }) as char]
        } else {
            numbers::hex(n / 16).push(
                (if n % 16 < 10 { 48 + n % 16 } else { 55 + n % 16 }) as char,
            )
        },
{
}

} // verus!
