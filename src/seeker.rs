use vstd::prelude::*;
use crate::utils::{count_at_or_before, keys, sorted, Quantify};

verus! {

/// A value that takes effect at time `offset`.
#[derive(Clone, Copy, Debug, PartialEq, Eq, Structural)]
pub struct Epoch<V> {
    pub offset: i64,
    pub val: V,
}

impl<V> Quantify for Epoch<V> {
    open spec fn quantity(&self) -> int {
        self.offset as int
    }

    fn quantify(&self) -> (r: i64) {
        self.offset
    }
}

impl<V: Copy> From<(i64, V)> for Epoch<V> {
    fn from(tup: (i64, V)) -> (r: Epoch<V>) {
        Epoch { offset: tup.0, val: tup.1 }
    }
}

impl<V: Copy> vstd::std_specs::convert::FromSpecImpl<(i64, V)> for Epoch<V> {
    open spec fn obeys_from_spec() -> bool {
        true
    }

    open spec fn from_spec(tup: (i64, V)) -> Epoch<V> {
        Epoch { offset: tup.0, val: tup.1 }
    }
}

/// A cursor over a sorted table: `meta` counts the entries already passed,
/// so `data[meta]` is the next entry ahead.
pub struct Seeker<T> {
    pub data: Vec<T>,
    pub meta: usize,
}

impl<T: Quantify> Seeker<T> {
    pub open spec fn wf(self) -> bool {
        &&& self.data@.len() > 0
        &&& sorted(keys(self.data@))
        &&& self.meta <= self.data@.len()
    }

    /// A cursor at the start of `data`.
    pub fn new(data: Vec<T>) -> (r: Self)
        ensures
            r.data == data,
            r.meta == 0,
    {
        Seeker { data, meta: 0 }
    }

    /// The entry ahead; once every entry is passed, the last one as an error.
    pub fn current(&self) -> (r: Result<&T, &T>)
        requires
            self.wf(),
        ensures
            self.meta < self.data@.len() ==> (r matches Ok(x) && *x == self.data@[self.meta as int]),
            self.meta == self.data@.len() ==> (r matches Err(x) && *x == self.data@.last()),
    {
        if self.meta < self.data.len() {
            Ok(&self.data[self.meta])
        } else {
            Err(&self.data[self.data.len() - 1])
        }
    }

    /// The entry just passed, where there is one; none in a table of a
    /// single entry, which has nothing before or after it.
    pub fn previous(&self) -> (r: Option<&T>)
        requires
            self.wf(),
        ensures
            1 < self.data@.len() && 0 < self.meta ==> (r matches Some(x) && *x
                == self.data@[self.meta - 1]),
            self.data@.len() <= 1 || self.meta == 0 ==> r.is_none(),
    {
        if 1 < self.data.len() && 0 < self.meta {
            Some(&self.data[self.meta - 1])
        } else {
            None
        }
    }

    /// The entry after the one ahead, where there is one.
    pub fn next(&self) -> (r: Option<&T>)
        requires
            self.wf(),
        ensures
            self.meta + 1 < self.data@.len() ==> (r matches Some(x) && *x
                == self.data@[self.meta + 1]),
            self.meta + 1 >= self.data@.len() ==> r.is_none(),
    {
        if self.meta < self.data.len() - 1 {
            Some(&self.data[self.meta + 1])
        } else {
            None
        }
    }

    /// Moves forward past every entry at or before `offset`, one at a time;
    /// never moves back. Returns the new count of entries passed.
    pub fn seek(&mut self, offset: i64) -> (r: usize)
        requires
            old(self).wf(),
        ensures
            final(self).wf(),
            final(self).data == old(self).data,
            r == final(self).meta,
            old(self).meta <= r,
            forall|j: int| old(self).meta <= j < r ==> #[trigger] keys(old(self).data@)[j] <= offset,
            r < old(self).data@.len() ==> offset < keys(old(self).data@)[r as int],
    {
        let ghost start = self.meta;
        while self.meta < self.data.len()
            invariant
                self.data == old(self).data,
                self.wf(),
                start == old(self).meta,
                start <= self.meta,
                forall|j: int| start <= j < self.meta ==> #[trigger] keys(self.data@)[j] <= offset,
            ensures
                self.meta < self.data@.len() ==> offset < keys(self.data@)[self.meta as int],
            decreases self.data@.len() - self.meta,
        {
            if offset < self.data[self.meta].quantify() {
                break;
            }
            self.meta = self.meta + 1;
        }
        self.meta
    }

    /// Moves straight to just past the last entry at or before `offset`,
    /// forward or back. Returns the new count of entries passed.
    pub fn jump(&mut self, offset: i64) -> (r: usize)
        requires
            old(self).wf(),
        ensures
            final(self).wf(),
            final(self).data == old(self).data,
            r == final(self).meta,
            forall|j: int| 0 <= j < r ==> #[trigger] keys(old(self).data@)[j] <= offset,
            forall|j: int| r <= j < old(self).data@.len() ==> offset < #[trigger] keys(old(self).data@)[j],
    {
        self.meta = count_at_or_before(self.data.as_slice(), offset);
        self.meta
    }
}

} // verus!
