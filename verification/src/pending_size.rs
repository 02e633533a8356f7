use vstd::prelude::*;
use crate::pending::BrPendingFs;
verus! {

/// The number of nodes of a tree.
pub open spec fn node_size(fs: BrPendingFs) -> nat
    decreases fs,
{
    match fs {
        BrPendingFs::Root(items) => 1 + items_size(items@),
        BrPendingFs::Folder(Some(items)) => 1 + items_size(items@),
        _ => 1,
    }
}

/// The number of nodes of a list of named trees.
pub open spec fn items_size(items: Seq<(String, BrPendingFs)>) -> nat
    decreases items,
{
    if items.len() == 0 {
        0
    } else {
        node_size(items[0].1) + items_size(items.drop_first())
    }
}

/// Each node of a list weighs less than the list, and dropping one entry
/// takes off exactly its weight.
pub proof fn lemma_items_size_elem(items: Seq<(String, BrPendingFs)>, k: int)
    requires
        0 <= k < items.len(),
    ensures
        node_size(items[k].1) <= items_size(items),
        items_size(items.remove(k)) == items_size(items) - node_size(items[k].1),
    decreases items.len(),
{
    if k > 0 {
        lemma_items_size_elem(items.drop_first(), k - 1);
        assert(items.remove(k).drop_first() =~= items.drop_first().remove(k - 1));
        assert(items.remove(k)[0] == items[0]);
    } else {
        assert(items.remove(0) =~= items.drop_first());
    }
}


} // verus!
