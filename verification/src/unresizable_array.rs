use vstd::prelude::*;

verus! {

/// A fixed-capacity store: items are only ever appended, never moved or
/// removed, so an item keeps its slot for the life of the store.
pub struct UnresizableArray<T, const TCAPACITY: usize> {
    data: Vec<T>,
    current_index: usize,
}

impl<T, const TCAPACITY: usize> UnresizableArray<T, TCAPACITY> {
    #[verifier::type_invariant]
    spec fn well_formed(self) -> bool {
        &&& self.current_index == self.data.len()
        &&& self.current_index <= TCAPACITY
    }

    /// The stored items, in the order they were pushed.
    pub closed spec fn view(&self) -> Seq<T> {
        self.data@
    }

    pub open spec fn spec_len(&self) -> nat {
        self.view().len()
    }

    /// An empty store.
    pub fn with_capacity() -> (a: Self)
        ensures
            a.view() == Seq::<T>::empty(),
    {
        Self { data: Vec::new(), current_index: 0 }
    }

    /// Number of stored items.
    pub fn len(&self) -> (n: usize)
        ensures
            n == self.spec_len(),
            n <= TCAPACITY,
    {
        proof {
            use_type_invariant(self);
        }
        self.current_index
    }

    /// Appends `item` and returns the slot it was stored in.
    pub fn push(&mut self, item: T) -> (slot: usize)
        requires
            old(self).spec_len() < TCAPACITY,
        ensures
            slot == old(self).spec_len(),
            final(self).view() == old(self).view().push(item),
    {
        proof {
            use_type_invariant(&*self);
        }
        let mut taken = Self { data: Vec::new(), current_index: 0 };
        std::mem::swap(&mut taken, self);
        proof {
            use_type_invariant(&taken);
        }
        let Self { mut data, current_index } = taken;
        data.push(item);
        *self = Self { data, current_index: current_index + 1 };
        current_index
    }

    /// The item stored in slot `index`, which must have been filled.
    pub fn get_unchecked(&self, index: usize) -> (item: &T)
        requires
            index < self.spec_len(),
        ensures
            *item == self.view()[index as int],
    {
        proof {
            use_type_invariant(self);
        }
        &self.data[index]
    }
}

/// Slots keep their items: pushing leaves every earlier slot as it was and
/// puts the new item in the next slot.
pub proof fn lemma_push_keeps_slots<T, const TCAPACITY: usize>(
    before: UnresizableArray<T, TCAPACITY>,
    item: T,
    after: UnresizableArray<T, TCAPACITY>,
    index: int,
)
    requires
        after.view() == before.view().push(item),
        0 <= index < before.spec_len(),
    ensures
        after.view()[index] == before.view()[index],
        after.view()[before.spec_len() as int] == item,
        after.spec_len() == before.spec_len() + 1,
{
}

} // verus!
