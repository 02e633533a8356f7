//! What a tree of pending files holds, as plain values: names as characters
//! and contents as bytes. Placing a file at a nested path is stated on these
//! values too.
use vstd::prelude::*;

use crate::insert::{first_folder, insert_ok, inserted};
use crate::pending::BrPendingFs;

verus! {

/// A pending tree with its names and contents taken by value.
pub enum TreeView {
    Root(Seq<(Seq<char>, TreeView)>),
    Folder(Option<Seq<(Seq<char>, TreeView)>>),
    File(Option<Seq<u8>>),
}

pub open spec fn opt_bytes(c: Option<Vec<u8>>) -> Option<Seq<u8>> {
    match c {
        Some(c) => Some(c@),
        None => None,
    }
}

/// The value that `fs` holds.
pub open spec fn tree_view(fs: BrPendingFs) -> TreeView
    decreases fs,
{
    match fs {
        BrPendingFs::Root(items) => TreeView::Root(items_view(items@)),
        BrPendingFs::Folder(Some(items)) => TreeView::Folder(Some(items_view(items@))),
        BrPendingFs::Folder(None) => TreeView::Folder(None),
        BrPendingFs::File(c) => TreeView::File(opt_bytes(c)),
    }
}

/// The values that the named entries of a folder hold, in order.
pub open spec fn items_view(items: Seq<(String, BrPendingFs)>) -> Seq<(Seq<char>, TreeView)>
    decreases items,
{
    if items.len() == 0 {
        seq![]
    } else {
        seq![(items[0].0@, tree_view(items[0].1))] + items_view(items.drop_first())
    }
}

pub proof fn lemma_items_view(items: Seq<(String, BrPendingFs)>)
    ensures
        items_view(items).len() == items.len(),
        forall|j: int|
            0 <= j < items.len() ==> #[trigger] items_view(items)[j] == (
                items[j].0@,
                tree_view(items[j].1),
            ),
    decreases items.len(),
{
    if items.len() > 0 {
        lemma_items_view(items.drop_first());
        assert forall|j: int| 0 < j < items.len() implies items[j] == items.drop_first()[j - 1] by {}
    }
}

pub proof fn lemma_items_view_push(items: Seq<(String, BrPendingFs)>, e: (String, BrPendingFs))
    ensures
        items_view(items.push(e)) == items_view(items).push((e.0@, tree_view(e.1))),
{
    lemma_items_view(items);
    lemma_items_view(items.push(e));
    assert(items_view(items.push(e)) =~= items_view(items).push((e.0@, tree_view(e.1))));
}

/// The position of the first folder named `n`.
pub open spec fn first_dir(v: Seq<(Seq<char>, TreeView)>, n: Seq<char>) -> Option<int>
    decreases v.len(),
{
    if v.len() == 0 {
        None
    } else if v[0].0 == n && v[0].1 is Folder {
        Some(0)
    } else {
        match first_dir(v.drop_first(), n) {
            Some(k) => Some(k + 1),
            None => None,
        }
    }
}

proof fn lemma_first_dir(items: Seq<(String, BrPendingFs)>, n: Seq<char>)
    ensures
        first_dir(items_view(items), n) == first_folder(items, n),
    decreases items.len(),
{
    lemma_items_view(items);
    if items.len() > 0 {
        lemma_first_dir(items.drop_first(), n);
        assert(items_view(items).drop_first() =~= items_view(items.drop_first()));
    }
}

/// `v` with a file holding `content` placed at the path `segs`: the file is
/// appended to the innermost folder; each folder on the way is the first
/// folder of its name, or a new empty one appended where there is none.
pub open spec fn insert_view(v: Seq<(Seq<char>, TreeView)>, segs: Seq<Seq<char>>, content: Seq<u8>) -> Seq<
    (Seq<char>, TreeView),
>
    decreases segs.len(),
{
    if segs.len() <= 1 {
        v.push((segs[0], TreeView::File(Some(content))))
    } else {
        match first_dir(v, segs[0]) {
            Some(k) => match v[k].1 {
                TreeView::Folder(Some(ch)) => v.update(
                    k,
                    (v[k].0, TreeView::Folder(Some(insert_view(ch, segs.drop_first(), content)))),
                ),
                _ => v,
            },
            None => v.push(
                (segs[0], TreeView::Folder(Some(insert_view(seq![], segs.drop_first(), content)))),
            ),
        }
    }
}

pub proof fn lemma_inserted_view(
    items: Seq<(String, BrPendingFs)>,
    segs: Seq<Seq<char>>,
    content: Seq<u8>,
    items2: Seq<(String, BrPendingFs)>,
)
    requires
        insert_ok(items, segs),
        inserted(items, segs, content, items2),
    ensures
        items_view(items2) == insert_view(items_view(items), segs, content),
    decreases segs.len(),
{
    lemma_items_view(items);
    lemma_items_view(items2);
    lemma_first_dir(items, segs[0]);
    if segs.len() <= 1 {
        assert(items_view(items2) =~= insert_view(items_view(items), segs, content)) by {
            assert forall|j: int| 0 <= j < items.len() implies items2[j] == items[j] by {
                assert(items2.drop_last()[j] == items[j]);
            }
        }
    } else {
        match first_folder(items, segs[0]) {
            Some(k) => {
                lemma_first_dir_range(items_view(items), segs[0]);
                assert(tree_view(items[k].1) is Folder);
                let ch = items[k].1->Folder_0->Some_0;
                let ch2 = items2[k].1->Folder_0->Some_0;
                lemma_inserted_view(ch@, segs.drop_first(), content, ch2@);
                assert(items_view(items)[k].1 == TreeView::Folder(Some(items_view(ch@))));
                assert(items_view(items2)[k] == (items[k].0@, TreeView::Folder(Some(items_view(ch2@)))));
                assert(items_view(items2) =~= insert_view(items_view(items), segs, content));
            },
            None => {
                lemma_inserted_view(seq![], segs.drop_first(), content, items2.last().1->Folder_0->Some_0@);
                assert(items_view(seq![]) =~= seq![]);
                assert(items_view(items2) =~= insert_view(items_view(items), segs, content)) by {
                    assert forall|j: int| 0 <= j < items.len() implies items2[j] == items[j] by {
                        assert(items2.drop_last()[j] == items[j]);
                    }
                }
            },
        }
    }
}

/// Whether every folder in `v`, at any depth, has its entries listed.
pub open spec fn vlisted(v: Seq<(Seq<char>, TreeView)>) -> bool
    decreases v,
{
    if v.len() == 0 {
        true
    } else {
        node_listed(v[0].1) && vlisted(v.drop_first())
    }
}

pub open spec fn node_listed(t: TreeView) -> bool
    decreases t,
{
    match t {
        TreeView::Root(ch) => vlisted(ch),
        TreeView::Folder(Some(ch)) => vlisted(ch),
        TreeView::Folder(None) => false,
        TreeView::File(_) => true,
    }
}

pub proof fn lemma_vlisted(v: Seq<(Seq<char>, TreeView)>)
    ensures
        vlisted(v) <==> (forall|j: int| 0 <= j < v.len() ==> #[trigger] node_listed(v[j].1)),
    decreases v.len(),
{
    if v.len() > 0 {
        lemma_vlisted(v.drop_first());
        assert forall|j: int| 0 < j < v.len() implies v[j] == v.drop_first()[j - 1] by {}
        if vlisted(v) {
            assert forall|j: int| 0 <= j < v.len() implies #[trigger] node_listed(v[j].1) by {
                if j > 0 {
                    assert(node_listed(v.drop_first()[j - 1].1));
                }
            }
        }
        if forall|j: int| 0 <= j < v.len() ==> #[trigger] node_listed(v[j].1) {
            assert forall|j: int| 0 <= j < v.drop_first().len() implies #[trigger] node_listed(
                v.drop_first()[j].1,
            ) by {
                assert(node_listed(v[j + 1].1));
            }
            assert(node_listed(v[0].1));
            assert(vlisted(v));
        }
    }
}

pub proof fn lemma_insert_listed(v: Seq<(Seq<char>, TreeView)>, segs: Seq<Seq<char>>, content: Seq<u8>)
    requires
        vlisted(v),
    ensures
        vlisted(insert_view(v, segs, content)),
    decreases segs.len(),
{
    let w = insert_view(v, segs, content);
    lemma_vlisted(v);
    lemma_vlisted(w);
    if segs.len() <= 1 {
        assert forall|j: int| 0 <= j < w.len() implies #[trigger] node_listed(w[j].1) by {
            if j < v.len() {
                assert(w[j] == v[j]);
            }
        }
    } else {
        match first_dir(v, segs[0]) {
            Some(k) => {
                lemma_first_dir_range(v, segs[0]);
                if let TreeView::Folder(Some(ch)) = v[k].1 {
                    assert(node_listed(v[k].1));
                    lemma_insert_listed(ch, segs.drop_first(), content);
                    assert forall|j: int| 0 <= j < w.len() implies #[trigger] node_listed(w[j].1) by {
                        if j != k {
                            assert(w[j] == v[j]);
                        }
                    }
                }
            },
            None => {
                lemma_vlisted(seq![]);
                lemma_insert_listed(seq![], segs.drop_first(), content);
                assert forall|j: int| 0 <= j < w.len() implies #[trigger] node_listed(w[j].1) by {
                    if j < v.len() {
                        assert(w[j] == v[j]);
                    }
                }
            },
        }
    }
}

pub(crate) proof fn lemma_first_dir_range(v: Seq<(Seq<char>, TreeView)>, n: Seq<char>)
    ensures
        first_dir(v, n) matches Some(k) ==> 0 <= k < v.len() && v[k].0 == n && v[k].1 is Folder,
    decreases v.len(),
{
    if v.len() > 0 {
        lemma_first_dir_range(v.drop_first(), n);
    }
}

/// Where every folder is listed, a file can be placed at any path that is
/// not empty.
pub proof fn lemma_listed_insert_ok(items: Seq<(String, BrPendingFs)>, segs: Seq<Seq<char>>)
    requires
        vlisted(items_view(items)),
        segs.len() > 0,
    ensures
        insert_ok(items, segs),
    decreases segs.len(),
{
    if segs.len() > 1 {
        lemma_first_dir(items, segs[0]);
        lemma_items_view(items);
        lemma_vlisted(items_view(items));
        lemma_first_dir_range(items_view(items), segs[0]);
        match first_folder(items, segs[0]) {
            Some(k) => {
                assert(node_listed(items_view(items)[k].1));
                if let BrPendingFs::Folder(Some(ch)) = items[k].1 {
                    lemma_listed_insert_ok(ch@, segs.drop_first());
                }
            },
            None => {},
        }
    }
}

fn clone_bytes(c: &Vec<u8>) -> (r: Vec<u8>)
    ensures
        r@ == c@,
{
    let mut r: Vec<u8> = Vec::new();
    let mut i: usize = 0;
    while i < c.len()
        invariant
            0 <= i <= c@.len(),
            r@ == c@.take(i as int),
        decreases c@.len() - i,
    {
        r.push(c[i]);
        i = i + 1;
        assert(r@ =~= c@.take(i as int));
    }
    assert(c@.take(c@.len() as int) =~= c@);
    r
}

fn clone_items(items: &Vec<(String, BrPendingFs)>) -> (r: Vec<(String, BrPendingFs)>)
    ensures
        items_view(r@) == items_view(items@),
    decreases items@, 0nat,
{
    let mut r: Vec<(String, BrPendingFs)> = Vec::new();
    let mut i: usize = 0;
    while i < items.len()
        invariant
            0 <= i <= items@.len(),
            items_view(r@) == items_view(items@.take(i as int)),
        decreases items@.len() - i,
    {
        let ghost before = r@;
        assert(decreases_to!(items@ => items@[i as int]));
        assert(decreases_to!(items@[i as int] => items@[i as int].1));
        let e = (items[i].0.clone(), clone_tree(&items[i].1));
        r.push(e);
        proof {
            lemma_items_view_push(before, e);
            lemma_items_view_push(items@.take(i as int), items@[i as int]);
            assert(items@.take(i + 1) =~= items@.take(i as int).push(items@[i as int]));
        }
        i = i + 1;
    }
    assert(items@.take(items@.len() as int) =~= items@);
    r
}

/// A copy of `fs` that holds the same names and contents.
pub fn clone_tree(fs: &BrPendingFs) -> (r: BrPendingFs)
    ensures
        tree_view(r) == tree_view(*fs),
    decreases *fs, 1nat,
{
    match fs {
        BrPendingFs::Root(items) => BrPendingFs::Root(clone_items(items)),
        BrPendingFs::Folder(Some(items)) => BrPendingFs::Folder(Some(clone_items(items))),
        BrPendingFs::Folder(None) => BrPendingFs::Folder(None),
        BrPendingFs::File(Some(c)) => BrPendingFs::File(Some(clone_bytes(c))),
        BrPendingFs::File(None) => BrPendingFs::File(None),
    }
}

impl Clone for BrPendingFs {
    /// A copy that holds the same names and contents (see [`clone_tree`]).
    fn clone(&self) -> (r: BrPendingFs)
        ensures
            tree_view(r) == tree_view(*self),
    {
        clone_tree(self)
    }
}

/// The node of the first entry named `n` among `v`.
pub open spec fn child_named(v: Seq<(Seq<char>, TreeView)>, n: Seq<char>) -> Option<TreeView>
    decreases v.len(),
{
    if v.len() == 0 {
        None
    } else if v[0].0 == n {
        Some(v[0].1)
    } else {
        child_named(v.drop_first(), n)
    }
}

/// The node that the names `path` lead to from `t`, each name taking the
/// first entry of that name in the folder (or root) it is looked up in.
pub open spec fn node_at(t: TreeView, path: Seq<Seq<char>>) -> Option<TreeView>
    decreases path.len(),
{
    if path.len() == 0 {
        Some(t)
    } else {
        let ch = match t {
            TreeView::Root(ch) => Some(ch),
            TreeView::Folder(Some(ch)) => Some(ch),
            _ => None,
        };
        match ch {
            Some(ch) => match child_named(ch, path[0]) {
                Some(c) => node_at(c, path.drop_first()),
                None => None,
            },
            None => None,
        }
    }
}

/// An entry appended after a first entry named `n` leaves it the first.
pub proof fn lemma_child_named_push(v: Seq<(Seq<char>, TreeView)>, e: (Seq<char>, TreeView), n: Seq<char>)
    requires
        child_named(v, n) is Some,
    ensures
        child_named(v.push(e), n) == child_named(v, n),
    decreases v.len(),
{
    if v.len() > 0 && v[0].0 != n {
        lemma_child_named_push(v.drop_first(), e, n);
        assert(v.push(e).drop_first() =~= v.drop_first().push(e));
    }
}

/// Replacing an entry not named `n` by another not named `n` leaves the
/// first entry named `n` as it was.
pub proof fn lemma_child_named_update(v: Seq<(Seq<char>, TreeView)>, k: int, e: (Seq<char>, TreeView), n: Seq<char>)
    requires
        0 <= k < v.len(),
        v[k].0 != n,
        e.0 != n,
    ensures
        child_named(v.update(k, e), n) == child_named(v, n),
    decreases v.len(),
{
    if k == 0 {
        assert(v.update(k, e).drop_first() =~= v.drop_first());
    } else if v[0].0 != n {
        lemma_child_named_update(v.drop_first(), k - 1, e, n);
        assert(v.update(k, e).drop_first() =~= v.drop_first().update(k - 1, e));
    }
}

/// Placing a file at a path that does not go through a folder named `n`
/// leaves the first entry named `n` as it was.
pub proof fn lemma_insert_keeps_child(v: Seq<(Seq<char>, TreeView)>, segs: Seq<Seq<char>>, content: Seq<u8>, n: Seq<char>)
    requires
        child_named(v, n) is Some,
        segs.len() > 0,
        segs.len() > 1 ==> segs[0] != n,
    ensures
        child_named(insert_view(v, segs, content), n) == child_named(v, n),
{
    if segs.len() <= 1 {
        lemma_child_named_push(v, (segs[0], TreeView::File(Some(content))), n);
    } else {
        lemma_first_dir_range(v, segs[0]);
        match first_dir(v, segs[0]) {
            Some(k) => match v[k].1 {
                TreeView::Folder(Some(ch)) => {
                    lemma_child_named_update(
                        v,
                        k,
                        (v[k].0, TreeView::Folder(Some(insert_view(ch, segs.drop_first(), content)))),
                        n,
                    );
                },
                _ => {},
            },
            None => {
                lemma_child_named_push(
                    v,
                    (segs[0], TreeView::Folder(Some(insert_view(seq![], segs.drop_first(), content)))),
                    n,
                );
            },
        }
    }
}

/// The first entry named `n` is the entry at `k` where no earlier entry
/// has that name.
pub proof fn lemma_child_named_at(v: Seq<(Seq<char>, TreeView)>, k: int, n: Seq<char>)
    requires
        0 <= k < v.len(),
        v[k].0 == n,
        forall|j: int| 0 <= j < k ==> (#[trigger] v[j]).0 != n,
    ensures
        child_named(v, n) == Some(v[k].1),
    decreases k,
{
    if k > 0 {
        let vt = v.drop_first();
        assert forall|j: int| 0 <= j < k - 1 implies (#[trigger] vt[j]).0 != n by {
            assert(vt[j] == v[j + 1]);
        }
        assert(v[0].0 != n);
        lemma_child_named_at(vt, k - 1, n);
    }
}

} // verus!
