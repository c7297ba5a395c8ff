//! Lists, one item after the other.

use vstd::prelude::*;

verus! {

/// The items lead from each of these states to the next, each by one step.
pub open spec fn leads_through<S, X>(
    step: spec_fn(S, X, S) -> bool,
    states: Seq<S>,
    items: Seq<X>,
) -> bool {
    &&& states.len() == items.len() + 1
    &&& forall|i: int|
        #![trigger states[i]]
        #![trigger items[i]]
        0 <= i < items.len() ==> step(states[i], items[i], states[i + 1])
}

/// The items, one after the other, lead from one state to the other.
pub open spec fn leads_to<S, X>(
    step: spec_fn(S, X, S) -> bool,
    before: S,
    items: Seq<X>,
    after: S,
) -> bool {
    exists|states: Seq<S>| #[trigger]
        leads_through(step, states, items) && states[0] == before && states.last() == after
}

/// Without items nothing happens.
pub proof fn lemma_no_step<S, X>(step: spec_fn(S, X, S) -> bool, state: S)
    ensures
        leads_to(step, state, Seq::<X>::empty(), state),
{
    let states = seq![state];
    assert(leads_through(step, states, Seq::<X>::empty()));
}

/// One item more leads one step further.
pub proof fn lemma_step<S, X>(
    step: spec_fn(S, X, S) -> bool,
    before: S,
    items: Seq<X>,
    middle: S,
    item: X,
    after: S,
)
    requires
        leads_to(step, before, items, middle),
        step(middle, item, after),
    ensures
        leads_to(step, before, items.push(item), after),
{
    let states = choose|states: Seq<S>| #[trigger]
        leads_through(step, states, items) && states[0] == before && states.last() == middle;
    let longer = states.push(after);
    assert forall|i: int|
        #![trigger longer[i]]
        #![trigger items.push(item)[i]]
        0 <= i < items.push(item).len() implies step(
        longer[i],
        items.push(item)[i],
        longer[i + 1],
    ) by {
        if i < items.len() {
            assert(longer[i] == states[i]);
        }
    }
    assert(leads_through(step, longer, items.push(item)));
}

/// Items lead from one state to another step by step: without items to no other state, and with one
/// item more exactly by one step more, behind all the others.
pub proof fn law_steps_follow_each_other<S, X>(
    step: spec_fn(S, X, S) -> bool,
    before: S,
    items: Seq<X>,
    item: X,
    after: S,
)
    ensures
        leads_to(step, before, Seq::<X>::empty(), after) <==> before == after,
        leads_to(step, before, items.push(item), after) <==> exists|middle: S|
            #[trigger] leads_to(step, before, items, middle) && step(middle, item, after),
{
    lemma_no_step(step, before);
    if leads_to(step, before, Seq::<X>::empty(), after) {
        let states = choose|states: Seq<S>| #[trigger]
            leads_through(step, states, Seq::<X>::empty()) && states[0] == before && states.last()
                == after;
        assert(states[0] == states.last());
    }
    if exists|middle: S| #[trigger]
        leads_to(step, before, items, middle) && step(middle, item, after) {
        let middle = choose|middle: S| #[trigger]
            leads_to(step, before, items, middle) && step(middle, item, after);
        lemma_step(step, before, items, middle, item, after);
    }
    if leads_to(step, before, items.push(item), after) {
        let longer = items.push(item);
        let states = choose|states: Seq<S>| #[trigger]
            leads_through(step, states, longer) && states[0] == before && states.last() == after;
        let fewer = states.drop_last();
        let n = items.len() as int;
        assert(step(states[n], longer[n], states[n + 1]));
        assert forall|i: int|
            #![trigger fewer[i]]
            #![trigger items[i]]
            0 <= i < items.len() implies step(fewer[i], items[i], fewer[i + 1]) by {
            assert(longer[i] == items[i]);
            assert(step(states[i], longer[i], states[i + 1]));
        }
        assert(leads_through(step, fewer, items));
        assert(fewer.last() == states[n]);
        assert(leads_to(step, before, items, states[n]));
    }
}

/// The same items, the last one first. Popped one by one, they come out in their old order.
pub fn reversed<T>(items: Vec<T>) -> (res: Vec<T>)
    ensures
        res@ == items@.reverse(),
{
    let ghost all = items@;
    let mut items = items;
    let mut res: Vec<T> = Vec::new();
    while items.len() > 0
        invariant
            items@.len() <= all.len(),
            items@ == all.take(items@.len() as int),
            res@ == all.skip(items@.len() as int).reverse(),
        decreases items.len(),
    {
        let ghost n = items@.len();
        if let Some(item) = items.pop() {
            res.push(item);
        }
        assert(items@ =~= all.take(n - 1));
        assert(res@ =~= all.skip(n - 1).reverse());
    }
    assert(all.skip(0) =~= all);
    res
}

} // verus!
