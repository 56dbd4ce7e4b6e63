//! A batch of renames as it is recorded for undo and redo.

use vstd::prelude::*;

verus! {

/// One rename: the name and path before and after.
#[derive(Debug)]
pub struct EdittedItem {
    pub name_original: String,
    pub name_edited: String,
    pub path_original: String,
    pub path_edited: String,
}

/// A batch of renames, applied together.
#[derive(Debug)]
pub struct Edit {
    pub tag: String,
    pub items: Vec<EdittedItem>,
    /// The number of renames in the batch.
    pub edits: u32,
}

/// The rename that takes back `i`: original and edited swap places.
pub open spec fn swapped(i: EdittedItem) -> EdittedItem {
    EdittedItem {
        name_original: i.name_edited,
        name_edited: i.name_original,
        path_original: i.path_edited,
        path_edited: i.path_original,
    }
}

/// `inv` takes back the batch `e`: an untagged batch of the swapped renames.
pub open spec fn is_inverse_of(inv: Edit, e: Edit) -> bool {
    &&& inv.tag@ == Seq::<char>::empty()
    &&& inv.items@ == e.items@.map_values(|i: EdittedItem| swapped(i))
    &&& inv.edits == e.items@.len()
}

/// Swaps original and edited of one rename.
pub fn swap_item(i: &EdittedItem) -> (r: EdittedItem)
    ensures
        r == swapped(*i),
{
    EdittedItem {
        name_original: i.name_edited.clone(),
        name_edited: i.name_original.clone(),
        path_original: i.path_edited.clone(),
        path_edited: i.path_original.clone(),
    }
}

/// The batch that takes back `e` (what undo and redo apply).
pub fn inverse_edit(e: &Edit) -> (r: Edit)
    requires
        e.items@.len() <= u32::MAX,
    ensures
        is_inverse_of(r, *e),
{
    let mut items: Vec<EdittedItem> = Vec::new();
    let mut edits: u32 = 0;
    let mut i: usize = 0;
    while i < e.items.len()
        invariant
            i <= e.items.len(),
            e.items@.len() <= u32::MAX,
            items@ == e.items@.take(i as int).map_values(|x: EdittedItem| swapped(x)),
            edits == i,
        decreases e.items.len() - i,
    {
        items.push(swap_item(&e.items[i]));
        edits = edits + 1;
        i = i + 1;
        assert(items@ =~= e.items@.take(i as int).map_values(|x: EdittedItem| swapped(x)));
    }
    assert(e.items@.take(i as int) =~= e.items@);
    Edit { tag: String::new(), items, edits }
}

/// Swapping a rename twice gives it back.
pub proof fn lemma_swapped_twice(i: EdittedItem)
    ensures
        swapped(swapped(i)) == i,
{
}

/// Undo then redo: the batch that takes back the batch that takes back
/// `e` applies the very renames of `e`.
pub proof fn lemma_inverse_of_inverse(e: Edit, inv: Edit, back: Edit)
    requires
        is_inverse_of(inv, e),
        is_inverse_of(back, inv),
    ensures
        back.items@ == e.items@,
        back.edits == e.items@.len(),
{
    assert forall|k: int| 0 <= k < e.items@.len() implies back.items@[k] == e.items@[k] by {
        lemma_swapped_twice(e.items@[k]);
    }
    assert(back.items@ =~= e.items@);
}

} // verus!
