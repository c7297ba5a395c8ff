//! An index from marks to the places that bear them.

use std::collections::HashMap;

use vstd::prelude::*;

verus! {

broadcast use vstd::std_specs::hash::group_hash_axioms;

/// Finds the places in a list by the marks that they bear. Several places may bear the same mark.
#[derive(Debug)]
pub(crate) struct PlaceIndex {
    places: HashMap<u64, Vec<usize>>,
}

impl PlaceIndex {
    /// The index leads from the mark to the place.
    pub(crate) closed spec fn leads(self, mark: u64, place: usize) -> bool {
        self.places@.dom().contains(mark) && self.places@[mark]@.contains(place)
    }

    /// The index leads from every mark in the list to the places that bear it, and nowhere else.
    pub(crate) open spec fn indexes(self, marks: Seq<u64>) -> bool {
        &&& marks.len() <= usize::MAX
        &&& forall|mark: u64, place: usize| #[trigger]
            self.leads(mark, place) <==> place < marks.len() && marks[place as int] == mark
    }

    /// An index of nothing.
    pub(crate) fn new() -> (res: Self)
        ensures
            res.indexes(Seq::empty()),
    {
        PlaceIndex { places: HashMap::new() }
    }

    /// The places to which a mark leads.
    pub(crate) fn bearing(&self, mark: u64) -> (res: Option<&Vec<usize>>)
        ensures
            forall|place: usize|
                #![trigger self.leads(mark, place)]
                self.leads(mark, place) <==> (res matches Some(places) && places@.contains(place)),
    {
        self.places.get(&mark)
    }

    /// Notes that the next place at the end of the list bears a mark.
    pub(crate) fn push(&mut self, Ghost(marks): Ghost<Seq<u64>>, mark: u64, place: usize)
        requires
            old(self).indexes(marks),
            place == marks.len(),
            place < usize::MAX,
        ensures
            final(self).indexes(marks.push(mark)),
    {
        let mut places = match self.places.remove(&mark) {
            Some(places) => places,
            None => Vec::new(),
        };
        let ghost earlier = places@;
        places.push(place);
        self.places.insert(mark, places);
        proof {
            let after = marks.push(mark);
            assert forall|m: u64, x: usize| #[trigger] self.leads(m, x) <==> x < after.len()
                && after[x as int] == m by {
                assert(old(self).leads(m, x) <==> x < marks.len() && marks[x as int] == m);
                if m == mark {
                    lemma_push_contains(earlier, place, x);
                }
            }
        }
    }

    /// Puts a place in another's stead, or nothing, among those to which a mark leads.
    fn replace(&mut self, mark: u64, from: usize, to: Option<usize>)
        ensures
            forall|m: u64, x: usize| #[trigger]
                final(self).leads(m, x) <==> if m == mark {
                    ||| x != from && old(self).leads(mark, x)
                    ||| to == Some(x) && old(self).leads(mark, from)
                } else {
                    old(self).leads(m, x)
                },
    {
        let earlier = match self.places.remove(&mark) {
            Some(places) => places,
            None => Vec::new(),
        };
        let mut places: Vec<usize> = Vec::new();
        let mut k: usize = 0;
        while k < earlier.len()
            invariant
                k <= earlier.len(),
                forall|x: usize| #[trigger]
                    places@.contains(x) <==> {
                        ||| x != from && earlier@.take(k as int).contains(x)
                        ||| to == Some(x) && earlier@.take(k as int).contains(from)
                    },
            decreases earlier.len() - k,
        {
            let place: usize = earlier[k];
            let ghost seen = earlier@.take(k as int);
            let ghost before = places@;
            if place != from {
                places.push(place);
            } else if let Some(to) = to {
                places.push(to);
            }
            k += 1;
            proof {
                assert(earlier@.take(k as int) =~= seen.push(place));
                assert forall|x: usize| #[trigger] places@.contains(x) <==> {
                    ||| x != from && seen.push(place).contains(x)
                    ||| to == Some(x) && seen.push(place).contains(from)
                } by {
                    lemma_push_contains(seen, place, x);
                    lemma_push_contains(seen, place, from);
                    assert(before.contains(x) <==> {
                        ||| x != from && seen.contains(x)
                        ||| to == Some(x) && seen.contains(from)
                    });
                    if place != from {
                        lemma_push_contains(before, place, x);
                    } else if let Some(to) = to {
                        lemma_push_contains(before, to, x);
                    }
                }
            }
        }
        let ghost found = places@;
        if places.len() > 0 {
            self.places.insert(mark, places);
        }
        proof {
            assert(earlier@.take(k as int) =~= earlier@);
            assert forall|m: u64, x: usize| #[trigger] self.leads(m, x) <==> if m == mark {
                ||| x != from && old(self).leads(mark, x)
                ||| to == Some(x) && old(self).leads(mark, from)
            } else {
                old(self).leads(m, x)
            } by {
                assert(old(self).leads(mark, x) <==> earlier@.contains(x));
                assert(old(self).leads(mark, from) <==> earlier@.contains(from));
                assert(self.leads(mark, x) <==> found.contains(x));
            }
        }
    }

    /// Notes that a place is taken out of the list, and that the last one has come to stand there.
    pub(crate) fn swap_remove(
        &mut self,
        Ghost(marks): Ghost<Seq<u64>>,
        mark: u64,
        place: usize,
        last_mark: u64,
        last: usize,
    )
        requires
            old(self).indexes(marks),
            place <= last,
            last + 1 == marks.len(),
            marks[place as int] == mark,
            marks[last as int] == last_mark,
        ensures
            final(self).indexes(marks.update(place as int, last_mark).drop_last()),
    {
        if mark == last_mark {
            self.replace(mark, last, None);
        } else {
            self.replace(mark, place, None);
            self.replace(last_mark, last, Some(place));
        }
        proof {
            let after = marks.update(place as int, last_mark).drop_last();
            assert forall|m: u64, x: usize| #[trigger] self.leads(m, x) <==> x < after.len()
                && after[x as int] == m by {
                assert(old(self).leads(m, x) <==> x < marks.len() && marks[x as int] == m);
                assert(old(self).leads(last_mark, last));
            }
        }
    }
}

proof fn lemma_push_contains(seq: Seq<usize>, item: usize, x: usize)
    ensures
        seq.push(item).contains(x) <==> seq.contains(x) || x == item,
{
    if seq.contains(x) {
        assert(seq.push(item)[seq.index_of(x)] == x);
    }
    if x == item {
        assert(seq.push(item)[seq.len() as int] == x);
    }
    if seq.push(item).contains(x) && x != item {
        let k = seq.push(item).index_of(x);
        assert(seq[k] == x);
    }
}

} // verus!
