//! Item identifiers and drop-table entries attached to crop stages.

use vstd::prelude::*;

use crate::range::Range;

verus! {

/// Identifier of an item kind, as named in data files.
#[derive(Debug, PartialEq, Eq, Hash)]
pub struct ItemId(pub String);

/// One entry of a drop table: which item falls and how many of it.
#[derive(Debug, PartialEq, Hash)]
pub struct ItemDrop {
    pub item: ItemId,
    pub amount: Range,
}

/// Mathematical shape of an [`ItemDrop`]: the item name and sampling bounds.
#[verifier::ext_equal]
pub struct DropView {
    pub item: Seq<char>,
    pub amount: Range,
}

impl View for ItemId {
    type V = Seq<char>;

    open spec fn view(&self) -> Seq<char> {
        self.0@
    }
}

impl View for ItemDrop {
    type V = DropView;

    open spec fn view(&self) -> DropView {
        DropView { item: self.item@, amount: self.amount }
    }
}

/// The drop list, element by element, as its mathematical shape.
pub open spec fn drops_view(ds: Seq<ItemDrop>) -> Seq<DropView> {
    ds.map_values(|d: ItemDrop| d@)
}

/// Every sampling range in the drop list is valid.
pub open spec fn drops_valid(ds: Seq<DropView>) -> bool {
    forall|i: int| 0 <= i < ds.len() ==> (#[trigger] ds[i]).amount.valid()
}

impl Clone for ItemId {
    fn clone(&self) -> (r: Self)
        ensures
            r == *self,
    {
        ItemId(self.0.clone())
    }
}

impl Clone for ItemDrop {
    fn clone(&self) -> (r: Self)
        ensures
            r == *self,
    {
        ItemDrop { item: self.item.clone(), amount: self.amount }
    }
}

/// Copies a drop list; the copy has the same elements.
pub fn clone_drops(ds: &Vec<ItemDrop>) -> (r: Vec<ItemDrop>)
    ensures
        r@ == ds@,
{
    let mut r: Vec<ItemDrop> = Vec::new();
    let mut i: usize = 0;
    while i < ds.len()
        invariant
            i <= ds.len(),
            r@ == ds@.take(i as int),
        decreases ds.len() - i,
    {
        r.push(ds[i].clone());
        proof {
            assert(r@ =~= ds@.take(i + 1));
        }
        i = i + 1;
    }
    proof {
        assert(ds@.take(ds@.len() as int) =~= ds@);
    }
    r
}

} // verus!
