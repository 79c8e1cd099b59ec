//! The rows cleared by one piece lock, kept in an `arrayvec` collection of
//! capacity four.

use vstd::prelude::*;

verus! {

/// The rows that one lock cleared (board row indices, bottom row 0).
///
/// The collection is an `arrayvec::ArrayVec<[i32; 4]>` held in a private
/// field; only the wrappers below touch it.
#[verifier::external_body]
pub struct ClearedLines {
    rows: arrayvec::ArrayVec<[i32; 4]>,
}

/// The rows held by a `ClearedLines`, first to last.
pub uninterp spec fn cleared_rows(lines: ClearedLines) -> Seq<i32>;

impl ClearedLines {
    /// Wraps `arrayvec::ArrayVec::new`: an empty collection.
    #[verifier::external_body]
    pub(crate) fn new() -> (res: ClearedLines)
        ensures
            cleared_rows(res) == Seq::<i32>::empty(),
    {
        ClearedLines { rows: arrayvec::ArrayVec::new() }
    }

    /// Wraps `arrayvec::ArrayVec::push`, which panics when the collection is
    /// full: the row is appended at the end.
    #[verifier::external_body]
    pub(crate) fn push(&mut self, row: i32)
        requires
            cleared_rows(*old(self)).len() < 4,
        ensures
            cleared_rows(*final(self)) == cleared_rows(*old(self)).push(row),
    {
        self.rows.push(row);
    }

    /// Wraps `arrayvec::ArrayVec::is_empty`: whether no row is held.
    #[verifier::external_body]
    pub(crate) fn is_empty(&self) -> (res: bool)
        ensures
            res == (cleared_rows(*self).len() == 0),
    {
        self.rows.is_empty()
    }

    /// Wraps `arrayvec::ArrayVec::as_slice`: the held rows in order; there
    /// are never more than the capacity of four.
    #[verifier::external_body]
    pub(crate) fn as_slice(&self) -> (res: &[i32])
        ensures
            res@ == cleared_rows(*self),
            res@.len() <= 4,
    {
        self.rows.as_slice()
    }

    /// Wraps `Clone::clone` of `arrayvec::ArrayVec`, which collects the
    /// cloned items in order: a collection with the same rows.
    #[verifier::external_body]
    pub(crate) fn duplicate(&self) -> (res: ClearedLines)
        ensures
            cleared_rows(res) == cleared_rows(*self),
    {
        ClearedLines { rows: self.rows.clone() }
    }

    /// The collection holding the given rows, in order; there can be at
    /// most four.
    pub fn from_rows(rows: &[i32]) -> (res: ClearedLines)
        requires
            rows@.len() <= 4,
        ensures
            cleared_rows(res) == rows@,
    {
        let mut res = ClearedLines::new();
        let mut i: usize = 0;
        while i < rows.len()
            invariant
                i <= rows@.len() <= 4,
                cleared_rows(res) == rows@.take(i as int),
            decreases rows.len() - i,
        {
            res.push(rows[i]);
            i = i + 1;
            assert(cleared_rows(res) =~= rows@.take(i as int));
        }
        assert(rows@.take(rows@.len() as int) =~= rows@);
        res
    }

    /// The held rows, in order.
    pub fn rows(&self) -> (res: Vec<i32>)
        ensures
            res@ == cleared_rows(*self),
            res@.len() <= 4,
    {
        let slice = self.as_slice();
        let mut res: Vec<i32> = Vec::new();
        let mut i: usize = 0;
        while i < slice.len()
            invariant
                i <= slice@.len(),
                res@ == slice@.take(i as int),
            decreases slice.len() - i,
        {
            res.push(slice[i]);
            i = i + 1;
            assert(res@ =~= slice@.take(i as int));
        }
        assert(slice@.take(slice@.len() as int) =~= slice@);
        res
    }

    /// How many rows are held.
    pub fn len(&self) -> (res: usize)
        ensures
            res == cleared_rows(*self).len(),
            res <= 4,
    {
        self.as_slice().len()
    }

    /// Whether `row` is one of the held rows.
    pub fn contains(&self, row: i32) -> (res: bool)
        ensures
            res == cleared_rows(*self).contains(row),
    {
        let rows = self.as_slice();
        let n: usize = rows.len();
        let mut i: usize = 0;
        while i < n
            invariant
                n == rows@.len(),
                rows@ == cleared_rows(*self),
                i <= n,
                forall|k: int| 0 <= k < i ==> rows@[k] != row,
            decreases n - i,
        {
            if rows[i] == row {
                assert(rows@[i as int] == row);
                return true;
            }
            i = i + 1;
        }
        false
    }
}

} // verus!
