//! The conjunction of filters.
use vstd::prelude::*;
use std::marker::PhantomData;
use crate::filters::filter::Filter;

verus! {

/// A value passes where it passes every member; with no member, every value
/// passes. Members are asked in order, and none after the first that says no.
///
/// The members are of one type `F`: boxed filters of any kind unless told
/// otherwise.
#[verifier::reject_recursive_types(T)]
pub struct And<T, F = Box<dyn Filter<T>>> {
    filters: Vec<F>,
    phantom: PhantomData<T>,
}

impl<T: Copy, F: Filter<T>> Filter<T> for And<T, F> {
    open spec fn accepts(&self, value: T) -> bool {
        forall|i: int| 0 <= i < self.members().len() ==> (#[trigger] self.members()[i]).accepts(value)
    }

    open spec fn steady(&self) -> bool {
        forall|i: int| 0 <= i < self.members().len() ==> (#[trigger] self.members()[i]).steady()
    }

    /// What the first member that is not steady has been shown: every
    /// member is shown the same.
    open spec fn shown(&self) -> Seq<u8> {
        self.members()[first_unsteady(self.members())].shown()
    }

    /// Every member would accept the value: every member is shown the same.
    open spec fn accepts_after(&self, more: Seq<u8>, value: T) -> bool {
        forall|i: int|
            0 <= i < self.members().len() ==> (#[trigger] self.members()[i]).accepts_after(
                more,
                value,
            )
    }

    fn includes(&self, result: T) -> (r: bool) {
        proof {
            assert(self.accepts_after(Seq::<u8>::empty(), result) == (forall|i: int|
                0 <= i < self.members().len() ==> (#[trigger] self.members()[i]).accepts_after(
                    Seq::<u8>::empty(),
                    result,
                )));
        }
        let mut i: usize = 0;
        while i < self.filters.len()
            invariant
                i <= self.filters.len(),
                forall|j: int| 0 <= j < i ==> (#[trigger] self.members()[j]).accepts(result),
                forall|j: int|
                    0 <= j < i ==> (#[trigger] self.members()[j]).accepts_after(
                        Seq::<u8>::empty(),
                        result,
                    ),
            decreases self.filters.len() - i,
        {
            if !self.filters[i].includes(result) {
                assert(!self.members()[i as int].accepts(result));
                assert(!self.members()[i as int].accepts_after(Seq::<u8>::empty(), result));
                return false;
            }
            i += 1;
        }
        true
    }

    fn observe(&mut self, bytes: &[u8]) {
        let mut i: usize = 0;
        while i < self.filters.len()
            invariant
                i <= self.filters.len(),
                self.filters.len() == old(self).filters.len(),
                forall|j: int|
                    0 <= j < self.members().len() ==> (#[trigger] self.members()[j]).steady()
                        == old(self).members()[j].steady(),
                forall|j: int, value: T|
                    0 <= j < self.members().len() && old(self).members()[j].steady() ==> (
                    #[trigger] self.members()[j].accepts(value)) == old(self).members()[j].accepts(
                        value,
                    ),
                forall|j: int|
                    0 <= j < i && !old(self).members()[j].steady() ==> (
                    #[trigger] self.members()[j]).shown() == old(self).members()[j].shown()
                        + bytes@,
                forall|j: int, more: Seq<u8>, value: T|
                    0 <= j < i ==> (#[trigger] self.members()[j].accepts_after(more, value))
                        == old(self).members()[j].accepts_after(bytes@ + more, value),
                forall|j: int|
                    i <= j < self.members().len() ==> (#[trigger] self.members()[j]) == old(
                        self,
                    ).members()[j],
            decreases self.filters.len() - i,
        {
            let ghost before = self.members();
            self.filters[i].observe(bytes);
            proof {
                assert(self.members().len() == before.len());
                assert forall|j: int| 0 <= j < before.len() && j != i implies self.members()[j]
                    == before[j] by {}
            }
            i += 1;
        }
        proof {
            assert forall|more: Seq<u8>, value: T| #[trigger]
                self.accepts_after(more, value) == old(self).accepts_after(
                    bytes@ + more,
                    value,
                ) by {
                if self.accepts_after(more, value) {
                    assert forall|j: int| 0 <= j < old(self).members().len() implies (
                    #[trigger] old(self).members()[j]).accepts_after(bytes@ + more, value) by {
                        assert(self.members()[j].accepts_after(more, value));
                    }
                }
                if old(self).accepts_after(bytes@ + more, value) {
                    assert forall|j: int| 0 <= j < self.members().len() implies (
                    #[trigger] self.members()[j]).accepts_after(more, value) by {
                        assert(old(self).members()[j].accepts_after(bytes@ + more, value));
                    }
                }
            }
            lemma_first_unsteady(old(self).members(), self.members());
            if old(self).steady() {
                assert forall|j: int| 0 <= j < self.members().len() implies (
                #[trigger] self.members()[j]).steady() by {
                    assert(old(self).members()[j].steady());
                }
            }
            if self.steady() {
                assert forall|j: int| 0 <= j < old(self).members().len() implies (
                #[trigger] old(self).members()[j]).steady() by {
                    assert(self.members()[j].steady());
                }
            }
            if old(self).steady() {
                assert forall|value: T| self.accepts(value) == old(self).accepts(value) by {
                    if self.accepts(value) {
                        assert forall|j: int| 0 <= j < old(self).members().len() implies (
                        #[trigger] old(self).members()[j]).accepts(value) by {
                            assert(self.members()[j].accepts(value));
                        }
                    }
                    if old(self).accepts(value) {
                        assert forall|j: int| 0 <= j < self.members().len() implies (
                        #[trigger] self.members()[j]).accepts(value) by {
                            assert(old(self).members()[j].accepts(value));
                        }
                    }
                }
            }
        }
    }
}

/// The place of the first of `members` that is not steady, or their number
/// where all are.
pub open spec fn first_unsteady<T, F: Filter<T>>(members: Seq<F>) -> int
    decreases members.len(),
{
    if members.len() == 0 {
        0
    } else if !members[0].steady() {
        0
    } else {
        1 + first_unsteady(members.drop_first())
    }
}

/// The first member that is not steady stays where it is as long as the
/// members stay as steady as they are, and it is there where not all are.
pub proof fn lemma_first_unsteady<T, F: Filter<T>>(before: Seq<F>, after: Seq<F>)
    requires
        before.len() == after.len(),
        forall|j: int| 0 <= j < before.len() ==> (#[trigger] after[j]).steady() == before[j].steady(),
    ensures
        first_unsteady(after) == first_unsteady(before),
        0 <= first_unsteady(before) <= before.len(),
        first_unsteady(before) < before.len() ==> !before[first_unsteady(before)].steady(),
        first_unsteady(before) == before.len() ==> forall|j: int|
            0 <= j < before.len() ==> (#[trigger] before[j]).steady(),
    decreases before.len(),
{
    if before.len() > 0 {
        assert(after[0].steady() == before[0].steady());
        if before[0].steady() {
            assert forall|j: int| 0 <= j < before.drop_first().len() implies (
            #[trigger] after.drop_first()[j]).steady() == before.drop_first()[j].steady() by {
                assert(after[j + 1].steady() == before[j + 1].steady());
            }
            lemma_first_unsteady(before.drop_first(), after.drop_first());
            if first_unsteady(before) == before.len() {
                assert forall|j: int| 0 <= j < before.len() implies (#[trigger] before[j]).steady() by {
                    if j > 0 {
                        assert(before.drop_first()[j - 1].steady());
                    }
                }
            }
        }
    }
}

impl<T, F> And<T, F> {
    /// The members, in the order in which they are asked.
    pub closed spec fn members(&self) -> Seq<F> {
        self.filters@
    }

    #[must_use]
    pub fn new() -> (r: Self)
        ensures
            r.members().len() == 0,
    {
        And { filters: Vec::new(), phantom: PhantomData }
    }

    #[must_use]
    pub fn with_filters(filters: Vec<F>) -> (r: Self)
        ensures
            r.members() == filters@,
    {
        And { filters, phantom: PhantomData }
    }

    pub fn with_box(filters: Vec<F>) -> (r: Box<Self>)
        ensures
            r.members() == filters@,
    {
        Box::new(Self::with_filters(filters))
    }

    /// Adds `filter` behind the members that are there.
    pub fn add(&mut self, filter: F)
        ensures
            final(self).members() == old(self).members().push(filter),
    {
        self.filters.push(filter);
    }
}

/// A conjunction without members accepts every value.
pub proof fn lemma_empty_accepts_all<T: Copy, F: Filter<T>>(and: And<T, F>, value: T)
    requires
        and.members().len() == 0,
    ensures
        and.accepts(value),
{
}

} // verus!
