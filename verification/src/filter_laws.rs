//! Laws of directory filters: what they decide, said over the predicate itself.

use vstd::prelude::*;

use crate::filter::WatchFilter;
use crate::path::FilePath;
use crate::paths::can_be_asked_between;

verus! {

/// Without a predicate every directory is accepted, and none is rejected.
pub proof fn law_no_predicate_accepts_everything<F: Fn(&FilePath) -> bool>(
    filter: WatchFilter<F>,
    text: Seq<u8>,
    target: Option<Seq<u8>>,
)
    requires
        filter@ is None,
    ensures
        filter.accepts_all(),
        filter.may_answer(text, true),
        !filter.may_answer(text, false),
        filter.may_decide_dir(text, target, true),
        !filter.may_decide_dir(text, target, false),
{
}

/// With a predicate the filter answers what the predicate says of that very path, and nothing else.
pub proof fn law_answers_are_those_of_the_predicate<F: Fn(&FilePath) -> bool>(
    filter: WatchFilter<F>,
    f: F,
    path: FilePath,
    answer: bool,
)
    requires
        filter@ == Some(f),
    ensures
        !filter.accepts_all(),
        call_ensures(f, (&path,), answer) ==> filter.may_answer(path@, answer),
        filter.may_answer(path@, answer) ==> exists|p: FilePath|
            p@ == path@ && #[trigger] call_ensures(f, (&p,), answer),
{
}

/// A directory is accepted only if the predicate accepts it and, where it is a symlink, its target
/// too; so it is rejected where the predicate never accepts one of the two.
pub proof fn law_both_names_have_to_be_accepted<F: Fn(&FilePath) -> bool>(
    filter: WatchFilter<F>,
    text: Seq<u8>,
    target: Option<Seq<u8>>,
)
    ensures
        filter.may_decide_dir(text, target, true) ==> filter.may_answer(text, true),
        (filter.may_decide_dir(text, target, true) && target is Some) ==> filter.may_answer(
            target->0,
            true,
        ),
        !filter.may_answer(text, true) ==> !filter.may_decide_dir(text, target, true),
        (target is Some && !filter.may_answer(target->0, true)) ==> !filter.may_decide_dir(
            text,
            target,
            true,
        ),
{
}

/// A directory is rejected only if the predicate rejects it or, where it is a symlink, its target;
/// so it is accepted where the predicate accepts both and never rejects one of the two.
pub proof fn law_one_name_has_to_be_rejected<F: Fn(&FilePath) -> bool>(
    filter: WatchFilter<F>,
    text: Seq<u8>,
    target: Option<Seq<u8>>,
)
    ensures
        filter.may_decide_dir(text, target, false) ==> filter.may_answer(text, false) || (target
            is Some && filter.may_answer(target->0, false)),
        filter.may_answer(text, false) ==> filter.may_decide_dir(text, target, false),
        (filter.may_answer(text, true) && target is Some && filter.may_answer(target->0, false))
            ==> filter.may_decide_dir(text, target, false),
        (filter.may_answer(text, true) && (target is Some ==> filter.may_answer(target->0, true)))
            ==> filter.may_decide_dir(text, target, true),
{
}

/// A filter without a predicate, and one whose predicate can be asked about every path, can be used
/// everywhere.
pub proof fn law_callable_filters_can_be_asked<F: Fn(&FilePath) -> bool>(
    filter: WatchFilter<F>,
    text: Seq<u8>,
    target: Option<Seq<u8>>,
    root: Seq<u8>,
)
    requires
        filter@ matches Some(f) ==> forall|p: FilePath| #[trigger] call_requires(f, (&p,)),
    ensures
        filter.callable(),
        filter.can_be_asked(text),
        filter.can_be_asked_of_dir(text, target),
        can_be_asked_between(filter, root, text),
{
}

} // verus!
