//! Items: what flows along a graph's edges.
use vstd::prelude::*;

use crate::json::{Json, JsonView};
use crate::text::views;

verus! {

/// One unit of data.
#[derive(Debug, PartialEq, Eq)]
pub struct Item {
    /// The payload.
    pub json: Json,
    /// The position of the input item this one was made from.
    pub paired_item: Option<usize>,
}

#[verifier::ext_equal]
pub struct ItemView {
    pub json: JsonView,
    pub paired_item: Option<usize>,
}

impl View for Item {
    type V = ItemView;

    open spec fn view(&self) -> ItemView {
        ItemView { json: self.json@, paired_item: self.paired_item }
    }
}

/// An item with a payload alone.
pub open spec fn plain_item(json: JsonView) -> ItemView {
    ItemView { json, paired_item: None }
}

impl Item {
    /// An item with a payload alone.
    pub fn new(json: Json) -> (r: Self)
        ensures
            r@ == plain_item(json@),
    {
        Item { json, paired_item: None }
    }
}

impl Clone for Item {
    fn clone(&self) -> (r: Self)
        ensures
            r@ == self@,
    {
        Item { json: self.json.clone(), paired_item: self.paired_item }
    }
}

/// A copy of a run of items.
pub fn copy_items(items: &[Item]) -> (r: Vec<Item>)
    ensures
        views(r@) == views(items@),
{
    let mut copies: Vec<Item> = Vec::new();
    let mut i: usize = 0;
    while i < items.len()
        invariant
            i <= items.len(),
            copies@.len() == i,
            forall|k: int| 0 <= k < i ==> (#[trigger] copies@[k])@ == items@[k]@,
        decreases items.len() - i,
    {
        copies.push(items[i].clone());
        i = i + 1;
    }
    assert(views(copies@) =~= views(items@));
    copies
}

/// The payload of the first item, and `null` where there is none.
pub open spec fn first_json(items: Seq<ItemView>) -> JsonView {
    if items.len() > 0 {
        items[0].json
    } else {
        JsonView::Null
    }
}

/// The payload of the first item, and `null` where there is none.
pub fn first_payload(items: &[Item]) -> (r: Json)
    ensures
        r@ == first_json(views(items@)),
{
    if items.len() > 0 {
        assert(views(items@)[0] == items@[0]@);
        items[0].json.clone()
    } else {
        Json::Null
    }
}

/// The payloads of a run of items.
pub open spec fn payloads(items: Seq<ItemView>) -> Seq<JsonView> {
    Seq::new(items.len(), |i: int| items[i].json)
}

/// The payloads of a run of items.
pub fn all_payloads(items: &[Item]) -> (r: Vec<Json>)
    ensures
        views(r@) == payloads(views(items@)),
{
    let mut found: Vec<Json> = Vec::new();
    let mut i: usize = 0;
    while i < items.len()
        invariant
            i <= items.len(),
            found@.len() == i,
            forall|k: int| 0 <= k < i ==> (#[trigger] found@[k])@ == items@[k]@.json,
        decreases items.len() - i,
    {
        found.push(items[i].json.clone());
        i = i + 1;
    }
    assert(views(found@) =~= payloads(views(items@)));
    found
}

} // verus!
