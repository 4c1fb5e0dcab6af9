//! The inline vectors of `smallvec` that hold a suite's option lists and its
//! variation order, with contracts over their contents.

use vstd::prelude::*;
use smallvec::SmallVec;
use crate::config::ConfigValue;

verus! {

/// The options of one field, held in a `SmallVec<[ConfigValue; 4]>`.
#[verifier::external_body]
pub struct OptionList {
    items: SmallVec<[ConfigValue; 4]>,
}

/// The field indexes of a variation order, held in a `SmallVec<[usize; 7]>`.
#[verifier::external_body]
pub struct FieldOrder {
    items: SmallVec<[usize; 7]>,
}

/// The items of an option list, in order.
pub uninterp spec fn option_items(v: OptionList) -> Seq<ConfigValue>;

/// The field indexes of a variation order, in order.
pub uninterp spec fn order_items(v: FieldOrder) -> Seq<usize>;

impl View for OptionList {
    type V = Seq<ConfigValue>;

    open spec fn view(&self) -> Seq<ConfigValue> {
        option_items(*self)
    }
}

impl View for FieldOrder {
    type V = Seq<usize>;

    open spec fn view(&self) -> Seq<usize> {
        order_items(*self)
    }
}

/// `SmallVec::from(&[ConfigValue])`: a new list that holds the slice's items in order.
#[verifier::external_body]
pub(crate) fn options_from_slice(items: &[ConfigValue]) -> (v: OptionList)
    ensures
        option_items(v) == items@,
{
    OptionList { items: SmallVec::from(items) }
}

/// `SmallVec::len`: the number of items in the list.
#[verifier::external_body]
pub(crate) fn options_len(v: &OptionList) -> (n: usize)
    ensures
        n == option_items(*v).len(),
{
    v.items.len()
}

/// `SmallVec` indexing: the item at position `i` (a copy of it).
#[verifier::external_body]
pub(crate) fn options_get(v: &OptionList, i: usize) -> (item: ConfigValue)
    requires
        i < option_items(*v).len(),
    ensures
        item == option_items(*v)[i as int],
{
    v.items[i]
}

/// `SmallVec::new`: an empty order.
#[verifier::external_body]
pub(crate) fn order_new() -> (v: FieldOrder)
    ensures
        order_items(v) == Seq::<usize>::empty(),
{
    FieldOrder { items: SmallVec::new() }
}

/// `SmallVec::from(&[usize])`: a new order that holds the slice's items in order.
#[verifier::external_body]
pub(crate) fn order_from_slice(items: &[usize]) -> (v: FieldOrder)
    ensures
        order_items(v) == items@,
{
    FieldOrder { items: SmallVec::from(items) }
}

/// `SmallVec::len`: the number of field indexes in the order.
#[verifier::external_body]
pub(crate) fn order_len(v: &FieldOrder) -> (n: usize)
    ensures
        n == order_items(*v).len(),
{
    v.items.len()
}

/// `SmallVec` indexing: the field index at position `i`.
#[verifier::external_body]
pub(crate) fn order_get(v: &FieldOrder, i: usize) -> (item: usize)
    requires
        i < order_items(*v).len(),
    ensures
        item == order_items(*v)[i as int],
{
    v.items[i]
}

} // verus!
