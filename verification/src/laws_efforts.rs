//! How a completion's model and effort follow from what is asked for.
use crate::prism;
use crate::text;
use vstd::prelude::*;

verus! {

broadcast use vstd::string::group_string_axioms;

/// The effort that a request asks for is the effort that it gets, whatever
/// the model's name, and whatever its letter case.
pub proof fn asked_efforts_are_given(
    model: Option<Seq<char>>,
    effort: Seq<char>,
    default_model: Seq<char>,
)
    ensures
        prism::resolved(model, Some("low"@), default_model).1 == "low"@,
        prism::resolved(model, Some("medium"@), default_model).1 == "medium"@,
        prism::resolved(model, Some("high"@), default_model).1 == "high"@,
        prism::resolved(model, Some("xhigh"@), default_model).1 == "xhigh"@,
        prism::resolved(model, Some("xhight"@), default_model).1 == "xhigh"@,
        text::eq_ignore_case(effort, "low"@) ==> prism::resolved(
            model,
            Some(effort),
            default_model,
        ).1 == "low"@,
        text::eq_ignore_case(effort, "high"@) ==> prism::resolved(
            model,
            Some(effort),
            default_model,
        ).1 == "high"@,
        text::eq_ignore_case(effort, "xhigh"@) || text::eq_ignore_case(effort, "xhight"@)
            ==> prism::resolved(model, Some(effort), default_model).1 == "xhigh"@,
        !text::eq_ignore_case(effort, "low"@) && !text::eq_ignore_case(effort, "high"@)
            && !text::eq_ignore_case(effort, "xhigh"@) && !text::eq_ignore_case(effort, "xhight"@)
            ==> prism::resolved(model, Some(effort), default_model).1 == "medium"@,
{
    efforts_are_told_apart();
    let a = text::lower(effort);
    assert(text::eq_ignore_case(effort, "low"@) ==> a == text::lower("low"@));
    assert(text::eq_ignore_case(effort, "high"@) ==> a == text::lower("high"@));
    assert(text::eq_ignore_case(effort, "xhigh"@) ==> a == text::lower("xhigh"@));
    assert(text::eq_ignore_case(effort, "xhight"@) ==> a == text::lower("xhight"@));
}

/// The names of the efforts differ in length or letters.
proof fn efforts_are_told_apart()
    ensures
        text::lower("low"@).len() == 3,
        text::lower("medium"@).len() == 6,
        text::lower("high"@).len() == 4,
        text::lower("xhigh"@).len() == 5,
        text::lower("xhight"@).len() == 6,
        text::lower("medium"@) != text::lower("xhight"@),
{
    reveal_strlit("low");
    reveal_strlit("medium");
    reveal_strlit("high");
    reveal_strlit("xhigh");
    reveal_strlit("xhight");
    assert(text::lower("medium"@)[0] != text::lower("xhight"@)[0]);
}

/// A model's name may end in an effort: the effort is split off, and counts
/// where the request asks for none. Any other name stays, with the middle
/// effort.
pub proof fn names_may_end_in_an_effort(base: Seq<char>, default_model: Seq<char>)
    ensures
        prism::resolved(Some(base + "-low"@), None, default_model) == (base, "low"@),
        prism::resolved(Some(base + "-medium"@), None, default_model) == (base, "medium"@),
        prism::resolved(Some(base + "-high"@), None, default_model) == (base, "high"@),
        prism::resolved(Some(base + "-xhigh"@), None, default_model) == (base, "xhigh"@),
        prism::split_model(base + "-low"@) == (base, Some("low"@)),
        prism::split_model(base + "-medium"@) == (base, Some("medium"@)),
        prism::split_model(base + "-high"@) == (base, Some("high"@)),
        prism::split_model(base + "-xhigh"@) == (base, Some("xhigh"@)),
{
    reveal_strlit("low");
    reveal_strlit("medium");
    reveal_strlit("high");
    reveal_strlit("xhigh");
    reveal_strlit("-low");
    reveal_strlit("-medium");
    reveal_strlit("-high");
    reveal_strlit("-xhigh");
    let low = base + "-low"@;
    let medium = base + "-medium"@;
    let high = base + "-high"@;
    ends_in(base, "-low"@);
    ends_in(base, "-medium"@);
    ends_in(base, "-high"@);
    ends_in(base, "-xhigh"@);
    last_letters(low, "-xhigh"@);
    last_letters(low, "-high"@);
    last_letters(low, "-medium"@);
    last_letters(medium, "-xhigh"@);
    last_letters(medium, "-high"@);
    last_letters(high, "-xhigh"@);
    assert("-xhigh"@[5] == 'h' && "-high"@[4] == 'h' && "-medium"@[6] == 'm');
    assert("-xhigh"@[1] == 'x' && high[high.len() - 5] == '-');
    assert(low.last() == 'w' && medium.last() == 'm');
    asked_efforts_are_given(None, "low"@, default_model);
}

/// A text that ends in a suffix, and what it is without it.
proof fn ends_in(base: Seq<char>, suffix: Seq<char>)
    ensures
        prism::ends_with(base + suffix, suffix),
        (base + suffix).take((base + suffix).len() - suffix.len()) == base,
{
    let whole = base + suffix;
    assert(whole.subrange(base.len() as int, whole.len() as int) =~= suffix);
    assert(whole.take(base.len() as int) =~= base);
}

/// A text that ends in a suffix has the suffix's last letters.
proof fn last_letters(s: Seq<char>, suffix: Seq<char>)
    ensures
        prism::ends_with(s, suffix) ==> suffix.len() <= s.len() && forall|i: int|
            0 <= i < suffix.len() ==> s[s.len() - suffix.len() + i] == #[trigger] suffix[i],
{
    if prism::ends_with(s, suffix) {
        let tail = s.subrange(s.len() - suffix.len(), s.len() as int);
        assert forall|i: int| 0 <= i < suffix.len() implies s[s.len() - suffix.len() + i]
            == #[trigger] suffix[i] by {
            assert(tail[i] == suffix[i]);
        }
    }
}

/// A name that ends in no effort stays as it is.
pub proof fn other_names_stay(model: Seq<char>, default_model: Seq<char>)
    requires
        forall|b: Seq<char>| #![trigger b + "-low"@] model != b + "-low"@,
        forall|b: Seq<char>| #![trigger b + "-medium"@] model != b + "-medium"@,
        forall|b: Seq<char>| #![trigger b + "-high"@] model != b + "-high"@,
        forall|b: Seq<char>| #![trigger b + "-xhigh"@] model != b + "-xhigh"@,
    ensures
        prism::resolved(Some(model), None, default_model) == (model, "medium"@),
        prism::split_model(model) == (model, None::<Seq<char>>),
{
    reveal_strlit("-low");
    reveal_strlit("-medium");
    reveal_strlit("-high");
    reveal_strlit("-xhigh");
    not_ending(model, "-low"@);
    not_ending(model, "-medium"@);
    not_ending(model, "-high"@);
    not_ending(model, "-xhigh"@);
    asked_efforts_are_given(None, "low"@, default_model);
}

/// A text that ends in a suffix is something with the suffix behind it.
proof fn not_ending(s: Seq<char>, suffix: Seq<char>)
    requires
        forall|b: Seq<char>| #![trigger b + suffix] s != b + suffix,
    ensures
        !prism::ends_with(s, suffix),
{
    if prism::ends_with(s, suffix) {
        let at = s.len() - suffix.len();
        assert(s =~= s.take(at) + suffix);
    }
}

/// The model's part of the answer does not depend on the effort that is asked
/// for, and a request without a model stands for one with the default.
pub proof fn models_and_efforts_are_apart(
    model: Seq<char>,
    effort: Seq<char>,
    default_model: Seq<char>,
)
    ensures
        prism::resolved(Some(model), Some(effort), default_model).0 == prism::resolved(
            Some(model),
            None,
            default_model,
        ).0,
        prism::resolved(None, Some(effort), default_model) == prism::resolved(
            Some(default_model),
            Some(effort),
            default_model,
        ),
        prism::resolved(None, None, default_model) == prism::resolved(
            Some(default_model),
            None,
            default_model,
        ),
{
}

} // verus!
