//! Values that the library copies and compares by what they hold.

use vstd::prelude::*;

verus! {

/// A value whose meaning is its view: it can be copied and compared without
/// looking at anything but that view.
pub trait Datum: View + Sized {
    /// An independent copy with the same view.
    fn snapshot(&self) -> (copy: Self)
        ensures
            copy@ == self@,
    ;

    /// Whether both values have the same view.
    fn same(&self, other: &Self) -> (equal: bool)
        ensures
            equal == (self@ == other@),
    ;
}

/// The views of all items, in order.
pub open spec fn views<T: View>(items: Seq<T>) -> Seq<T::V> {
    items.map_values(|item: T| item@)
}

/// The view of an optional item.
pub open spec fn opt_view<T: View>(item: Option<T>) -> Option<T::V> {
    match item {
        Some(value) => Some(value@),
        None => None,
    }
}

/// The view of a result.
pub open spec fn res_view<T: View, E: View>(result: Result<T, E>) -> Result<T::V, E::V> {
    match result {
        Ok(value) => Ok(value@),
        Err(error) => Err(error@),
    }
}

/// The view of a result without a value.
pub open spec fn done_view<E: View>(result: Result<(), E>) -> Result<(), E::V> {
    match result {
        Ok(()) => Ok(()),
        Err(error) => Err(error@),
    }
}

/// The view of a result that is a list.
pub open spec fn list_view<T: View, E: View>(result: Result<Vec<T>, E>) -> Result<Seq<T::V>, E::V> {
    match result {
        Ok(items) => Ok(views(items@)),
        Err(error) => Err(error@),
    }
}

pub proof fn lemma_views_push<T: View>(items: Seq<T>, item: T)
    ensures
        views(items.push(item)) == views(items).push(item@),
{
    assert(views(items.push(item)) =~= views(items).push(item@));
}

pub proof fn lemma_views_take<T: View>(items: Seq<T>, count: int)
    requires
        0 <= count <= items.len(),
    ensures
        views(items.take(count)) == views(items).take(count),
{
    assert(views(items.take(count)) =~= views(items).take(count));
}

pub proof fn lemma_views_concat<T: View>(left: Seq<T>, right: Seq<T>)
    ensures
        views(left + right) == views(left) + views(right),
{
    assert(views(left + right) =~= views(left) + views(right));
}

impl Datum for String {
    fn snapshot(&self) -> (copy: Self) {
        self.clone()
    }

    fn same(&self, other: &Self) -> (equal: bool) {
        *self == *other
    }
}

impl Datum for bool {
    fn snapshot(&self) -> (copy: Self) {
        *self
    }

    fn same(&self, other: &Self) -> (equal: bool) {
        *self == *other
    }
}

/// Copies every item.
pub fn snapshot_all<T: Datum>(items: &Vec<T>) -> (copies: Vec<T>)
    ensures
        views(copies@) == views(items@),
        copies@.len() == items@.len(),
{
    let mut copies: Vec<T> = Vec::new();
    let mut index: usize = 0;
    while index < items.len()
        invariant
            index <= items@.len(),
            views(copies@) == views(items@).take(index as int),
        decreases items@.len() - index,
    {
        let copy = items[index].snapshot();
        proof {
            lemma_views_push(copies@, copy);
            assert(views(items@).take(index as int + 1) =~= views(items@).take(index as int).push(
                views(items@)[index as int],
            ));
        }
        copies.push(copy);
        index = index + 1;
    }
    proof {
        assert(views(items@).take(index as int) =~= views(items@));
        assert(views(copies@).len() == copies@.len());
        assert(views(items@).len() == items@.len());
    }
    copies
}

/// Compares two lists item by item.
pub fn same_all<T: Datum>(left: &Vec<T>, right: &Vec<T>) -> (equal: bool)
    ensures
        equal == (views(left@) == views(right@)),
{
    if left.len() != right.len() {
        assert(views(left@).len() != views(right@).len());
        return false;
    }
    let mut index: usize = 0;
    while index < left.len()
        invariant
            index <= left@.len(),
            left@.len() == right@.len(),
            forall|i: int| 0 <= i < index ==> views(left@)[i] == views(right@)[i],
        decreases left@.len() - index,
    {
        if !left[index].same(&right[index]) {
            assert(views(left@)[index as int] != views(right@)[index as int]);
            return false;
        }
        assert(views(left@)[index as int] == views(right@)[index as int]);
        index = index + 1;
    }
    assert(views(left@) =~= views(right@));
    true
}

/// Copies an optional item.
pub fn snapshot_opt<T: Datum>(item: &Option<T>) -> (copy: Option<T>)
    ensures
        opt_view(copy) == opt_view(*item),
{
    match item {
        Some(value) => Some(value.snapshot()),
        None => None,
    }
}

/// Compares two optional items.
pub fn same_opt<T: Datum>(left: &Option<T>, right: &Option<T>) -> (equal: bool)
    ensures
        equal == (opt_view(*left) == opt_view(*right)),
{
    match (left, right) {
        (Some(a), Some(b)) => a.same(b),
        (None, None) => true,
        _ => false,
    }
}

/// Compares two optional numbers.
pub fn same_opt_copy(left: Option<u64>, right: Option<u64>) -> (equal: bool)
    ensures
        equal == (left == right),
{
    match (left, right) {
        (Some(a), Some(b)) => a == b,
        (None, None) => true,
        _ => false,
    }
}

/// Whether some item of the list has the view of `wanted`.
pub fn holds<T: Datum>(items: &Vec<T>, wanted: &T) -> (found: bool)
    ensures
        found == views(items@).contains(wanted@),
{
    let mut index: usize = 0;
    while index < items.len()
        invariant
            index <= items@.len(),
            forall|i: int| 0 <= i < index ==> views(items@)[i] != wanted@,
        decreases items@.len() - index,
    {
        if items[index].same(wanted) {
            assert(views(items@)[index as int] == wanted@);
            return true;
        }
        assert(views(items@)[index as int] != wanted@);
        index = index + 1;
    }
    assert(views(items@).len() == items@.len());
    false
}

} // verus!
