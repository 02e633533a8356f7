//! What unpacking a packed tree gives back as a tree: the same folders and
//! files at the same places, each folder listing its folders first and then
//! its files, each in the order of the tree, and without the entries that
//! carry no content.
use vstd::prelude::*;

use crate::archive::{
    add_file, add_folder, archive_of, bfs_run, child_entries, empty_archive, lemma_queue_size_append,
    lemma_queue_size_children, queue_size, QueueEntry,
};
use crate::archive_read::{lemma_archive_contents, queue_files, tree_files};
use crate::archive_wf::tree_fits;
use crate::brz::{Brz, BrzView};
use crate::index::IndexView;
use crate::codec::{blake3_digest, zstd_compressed, zstd_decompressed};
use crate::pending::BrPendingFs;
use crate::pending_size::node_size;
use crate::unpack::{child_file_ids, child_folder_ids, file_content, folder_rel};

verus! {

/// The entries of the queue `q` in the order in which the walk visits them,
/// each with the folder it lies in; `m` is the id that the next folder gets.
pub open spec fn visits(q: Seq<QueueEntry>, m: int) -> Seq<QueueEntry>
    decreases queue_size(q),
{
    if q.len() == 0 {
        seq![]
    } else {
        let rest = q.drop_first();
        proof {
            lemma_queue_size_append(seq![q[0]], rest);
            assert(seq![q[0]] + rest =~= q);
        }
        match q[0].2 {
            BrPendingFs::Root(items) => {
                proof {
                    lemma_queue_size_append(rest, child_entries(-1i32, items@));
                    lemma_queue_size_children(-1i32, items@);
                }
                seq![q[0]] + visits(rest + child_entries(-1i32, items@), m)
            },
            BrPendingFs::Folder(Some(items)) => {
                proof {
                    lemma_queue_size_append(rest, child_entries(m as i32, items@));
                    lemma_queue_size_children(m as i32, items@);
                }
                seq![q[0]] + visits(rest + child_entries(m as i32, items@), m + 1)
            },
            _ => seq![q[0]] + visits(rest, m),
        }
    }
}

/// The entries of `s` that lie in folder `f`.
pub open spec fn under(s: Seq<QueueEntry>, f: int) -> Seq<QueueEntry>
    decreases s.len(),
{
    if s.len() == 0 {
        seq![]
    } else if s[0].0 == f {
        seq![s[0]] + under(s.drop_first(), f)
    } else {
        under(s.drop_first(), f)
    }
}

/// Whether an entry is a folder with content.
pub open spec fn is_folder(e: QueueEntry) -> bool {
    e.2 matches BrPendingFs::Folder(Some(_))
}

/// Whether an entry is a file with content.
pub open spec fn is_file(e: QueueEntry) -> bool {
    e.2 matches BrPendingFs::File(Some(_))
}

/// The folders with content among `s`.
pub open spec fn folder_entries(s: Seq<QueueEntry>) -> Seq<QueueEntry>
    decreases s.len(),
{
    if s.len() == 0 {
        seq![]
    } else if is_folder(s[0]) {
        seq![s[0]] + folder_entries(s.drop_first())
    } else {
        folder_entries(s.drop_first())
    }
}

/// The files with content among `s`.
pub open spec fn file_entries(s: Seq<QueueEntry>) -> Seq<QueueEntry>
    decreases s.len(),
{
    if s.len() == 0 {
        seq![]
    } else if is_file(s[0]) {
        seq![s[0]] + file_entries(s.drop_first())
    } else {
        file_entries(s.drop_first())
    }
}

proof fn lemma_under_add(a: Seq<QueueEntry>, b: Seq<QueueEntry>, f: int)
    ensures
        under(a + b, f) == under(a, f) + under(b, f),
    decreases a.len(),
{
    if a.len() == 0 {
        assert(a + b =~= b);
    } else {
        assert((a + b).drop_first() =~= a.drop_first() + b);
        lemma_under_add(a.drop_first(), b, f);
        assert((a + b)[0] == a[0]);
        if a[0].0 == f {
            assert(seq![a[0]] + (under(a.drop_first(), f) + under(b, f)) =~= (seq![a[0]] + under(
                a.drop_first(),
                f,
            )) + under(b, f));
        }
    }
}

proof fn lemma_folder_entries_add(a: Seq<QueueEntry>, b: Seq<QueueEntry>)
    ensures
        folder_entries(a + b) == folder_entries(a) + folder_entries(b),
    decreases a.len(),
{
    if a.len() == 0 {
        assert(a + b =~= b);
    } else {
        assert((a + b).drop_first() =~= a.drop_first() + b);
        lemma_folder_entries_add(a.drop_first(), b);
        assert((a + b)[0] == a[0]);
        if is_folder(a[0]) {
            assert(seq![a[0]] + (folder_entries(a.drop_first()) + folder_entries(b)) =~= (seq![a[0]]
                + folder_entries(a.drop_first())) + folder_entries(b));
        }
    }
}

proof fn lemma_file_entries_add(a: Seq<QueueEntry>, b: Seq<QueueEntry>)
    ensures
        file_entries(a + b) == file_entries(a) + file_entries(b),
    decreases a.len(),
{
    if a.len() == 0 {
        assert(a + b =~= b);
    } else {
        assert((a + b).drop_first() =~= a.drop_first() + b);
        lemma_file_entries_add(a.drop_first(), b);
        assert((a + b)[0] == a[0]);
        if is_file(a[0]) {
            assert(seq![a[0]] + (file_entries(a.drop_first()) + file_entries(b)) =~= (seq![a[0]]
                + file_entries(a.drop_first())) + file_entries(b));
        }
    }
}

/// The folders that the entries of `s` lie in.
pub open spec fn parents(s: Seq<QueueEntry>) -> Seq<i32> {
    s.map_values(|e: QueueEntry| e.0)
}

/// The names of the entries of `s`.
pub open spec fn entry_names(s: Seq<QueueEntry>) -> Seq<Seq<char>> {
    s.map_values(|e: QueueEntry| e.1)
}

/// The walk lists the folders and files that it visits, in the order of its
/// visits, each with the folder it lies in.
proof fn lemma_bfs_lists(level: Option<i32>, q: Seq<QueueEntry>, acc: BrzView, m: int)
    requires
        bfs_run(level, q, acc) is Ok,
        acc.index_data.num_folders == m,
        m + queue_size(q) < i32::MAX,
    ensures
        ({
            let v = bfs_run(level, q, acc).unwrap();
            let d = acc.index_data;
            let fv = folder_entries(visits(q, m));
            let gv = file_entries(visits(q, m));
            &&& v.index_data.num_folders == m + fv.len()
            &&& v.index_data.folder_parent_ids == d.folder_parent_ids + parents(fv)
            &&& v.index_data.folder_names == d.folder_names + entry_names(fv)
            &&& v.index_data.file_parent_ids == d.file_parent_ids + parents(gv)
            &&& v.index_data.file_names == d.file_names + entry_names(gv)
        }),
    decreases queue_size(q),
{
    let d = acc.index_data;
    if q.len() == 0 {
        assert(d.folder_parent_ids + parents(seq![]) =~= d.folder_parent_ids);
        assert(d.folder_names + entry_names(seq![]) =~= d.folder_names);
        assert(d.file_parent_ids + parents(seq![]) =~= d.file_parent_ids);
        assert(d.file_names + entry_names(seq![]) =~= d.file_names);
    } else {
        let (parent, name, node) = q[0];
        let rest = q.drop_first();
        lemma_queue_size_append(seq![q[0]], rest);
        assert(seq![q[0]] + rest =~= q);
        assert(seq![q[0]].drop_first() =~= Seq::<QueueEntry>::empty());
        assert(queue_size(seq![q[0]]) == node_size(node) + queue_size(Seq::<QueueEntry>::empty()));
        let v = bfs_run(level, q, acc).unwrap();
        match node {
            BrPendingFs::Root(items) => {
                let c = child_entries(-1i32, items@);
                lemma_queue_size_append(rest, c);
                lemma_queue_size_children(-1i32, items@);
                lemma_bfs_lists(level, rest + c, acc, m);
                let w = visits(rest + c, m);
                assert((seq![q[0]] + w).drop_first() =~= w);
                assert(folder_entries(visits(q, m)) == folder_entries(w));
                assert(file_entries(visits(q, m)) == file_entries(w));
            },
            BrPendingFs::Folder(Some(items)) => {
                let c = child_entries(m as i32, items@);
                lemma_queue_size_append(rest, c);
                lemma_queue_size_children(m as i32, items@);
                let acc2 = add_folder(acc, parent, name);
                assert(acc.index_data.num_folders == m as i32);
                lemma_bfs_lists(level, rest + c, acc2, m + 1);
                let w = visits(rest + c, m + 1);
                assert((seq![q[0]] + w).drop_first() =~= w);
                let fw = folder_entries(w);
                assert(folder_entries(visits(q, m)) == seq![q[0]] + fw);
                assert(file_entries(visits(q, m)) == file_entries(w));
                assert(parents(seq![q[0]] + fw) =~= seq![parent] + parents(fw));
                assert(entry_names(seq![q[0]] + fw) =~= seq![name] + entry_names(fw));
                assert(d.folder_parent_ids.push(parent) + parents(fw) =~= d.folder_parent_ids + (
                seq![parent] + parents(fw)));
                assert(d.folder_names.push(name) + entry_names(fw) =~= d.folder_names + (seq![name]
                    + entry_names(fw)));
            },
            BrPendingFs::File(Some(content)) => {
                let acc2 = add_file(acc, parent, name, content@, level).unwrap();
                lemma_bfs_lists(level, rest, acc2, m);
                let w = visits(rest, m);
                assert((seq![q[0]] + w).drop_first() =~= w);
                let gw = file_entries(w);
                assert(folder_entries(visits(q, m)) == folder_entries(w));
                assert(file_entries(visits(q, m)) == seq![q[0]] + gw);
                assert(parents(seq![q[0]] + gw) =~= seq![parent] + parents(gw));
                assert(entry_names(seq![q[0]] + gw) =~= seq![name] + entry_names(gw));
                assert(d.file_parent_ids.push(parent) + parents(gw) =~= d.file_parent_ids + (
                seq![parent] + parents(gw)));
                assert(d.file_names.push(name) + entry_names(gw) =~= d.file_names + (seq![name]
                    + entry_names(gw)));
            },
            _ => {
                lemma_bfs_lists(level, rest, acc, m);
                let w = visits(rest, m);
                assert((seq![q[0]] + w).drop_first() =~= w);
                assert(folder_entries(visits(q, m)) == folder_entries(w));
                assert(file_entries(visits(q, m)) == file_entries(w));
            },
        }
    }
}

/// Whether no node of a tree below its top is a root.
pub open spec fn tree_no_root(fs: BrPendingFs) -> bool
    decreases fs,
{
    match fs {
        BrPendingFs::Root(_) => false,
        BrPendingFs::Folder(Some(items)) => items_no_root(items@),
        _ => true,
    }
}

/// Whether no tree of `items` holds a root.
pub open spec fn items_no_root(items: Seq<(String, BrPendingFs)>) -> bool
    decreases items,
{
    if items.len() == 0 {
        true
    } else {
        tree_no_root(items[0].1) && items_no_root(items.drop_first())
    }
}

/// Whether no tree waiting in the queue holds a root.
pub open spec fn queue_no_root(q: Seq<QueueEntry>) -> bool {
    forall|i: int| 0 <= i < q.len() ==> tree_no_root(#[trigger] q[i].2)
}

proof fn lemma_children_no_root(p: i32, items: Seq<(String, BrPendingFs)>)
    requires
        items_no_root(items),
    ensures
        queue_no_root(child_entries(p, items)),
    decreases items.len(),
{
    if items.len() > 0 {
        lemma_children_no_root(p, items.drop_first());
        let c = child_entries(p, items);
        assert forall|i: int| 0 <= i < c.len() implies tree_no_root(#[trigger] c[i].2) by {
            if i > 0 {
                assert(c[i] == child_entries(p, items.drop_first())[i - 1]);
            }
        }
    }
}

/// Whether every entry of `q` lies at the top (-1) or in a folder with an id
/// below `m`.
pub open spec fn parents_below(q: Seq<QueueEntry>, m: int) -> bool {
    forall|i: int| 0 <= i < q.len() ==> -1 <= (#[trigger] q[i]).0 < m
}

proof fn lemma_under_none(s: Seq<QueueEntry>, f: int)
    requires
        forall|i: int| 0 <= i < s.len() ==> (#[trigger] s[i]).0 != f,
    ensures
        under(s, f) == Seq::<QueueEntry>::empty(),
    decreases s.len(),
{
    if s.len() > 0 {
        assert forall|i: int| 0 <= i < s.drop_first().len() implies (#[trigger] s.drop_first()[i]).0 != f by {
            assert(s.drop_first()[i] == s[i + 1]);
        }
        lemma_under_none(s.drop_first(), f);
    }
}

proof fn lemma_under_children(p: i32, items: Seq<(String, BrPendingFs)>)
    ensures
        under(child_entries(p, items), p as int) == child_entries(p, items),
    decreases items.len(),
{
    if items.len() > 0 {
        let c = child_entries(p, items);
        assert(c.drop_first() =~= child_entries(p, items.drop_first()));
        lemma_under_children(p, items.drop_first());
        assert(seq![c[0]] + c.drop_first() =~= c);
    } else {
        assert(child_entries(p, items) =~= Seq::<QueueEntry>::empty());
    }
}

proof fn lemma_parents_children(p: i32, items: Seq<(String, BrPendingFs)>)
    ensures
        forall|i: int| 0 <= i < child_entries(p, items).len() ==> (#[trigger] child_entries(p, items)[i]).0 == p,
{
}

/// An entry that lies in no folder made from here on keeps its place: the
/// walk visits the entries of folder `f` that wait in the queue, and no more.
proof fn lemma_under_stable(q: Seq<QueueEntry>, m: int, f: int)
    requires
        f < m,
        f >= 0 || queue_no_root(q),
        m + queue_size(q) < i32::MAX,
    ensures
        under(visits(q, m), f) == under(q, f),
    decreases queue_size(q),
{
    if q.len() > 0 {
        let rest = q.drop_first();
        lemma_queue_size_append(seq![q[0]], rest);
        assert(seq![q[0]] + rest =~= q);
        assert(seq![q[0]].drop_first() =~= Seq::<QueueEntry>::empty());
        assert(queue_size(seq![q[0]]) == node_size(q[0].2) + queue_size(Seq::<QueueEntry>::empty()));
        lemma_under_add(seq![q[0]], rest, f);
        assert(queue_no_root(q) ==> queue_no_root(rest)) by {
            if queue_no_root(q) {
                assert forall|i: int| 0 <= i < rest.len() implies tree_no_root(#[trigger] rest[i].2) by {
                    assert(rest[i] == q[i + 1]);
                }
            }
        }
        match q[0].2 {
            BrPendingFs::Root(items) => {
                assert(f >= 0) by {
                    if f < 0 {
                        assert(tree_no_root(q[0].2));
                    }
                }
                let c = child_entries(-1i32, items@);
                lemma_queue_size_append(rest, c);
                lemma_queue_size_children(-1i32, items@);
                lemma_under_stable(rest + c, m, f);
                lemma_parents_children(-1i32, items@);
                lemma_under_none(c, f);
                lemma_under_add(rest, c, f);
                lemma_under_add(seq![q[0]], visits(rest + c, m), f);
                assert(under(rest, f) + Seq::<QueueEntry>::empty() =~= under(rest, f));
            },
            BrPendingFs::Folder(Some(items)) => {
                let c = child_entries(m as i32, items@);
                lemma_queue_size_append(rest, c);
                lemma_queue_size_children(m as i32, items@);
                if f < 0 {
                    assert(tree_no_root(q[0].2));
                    lemma_children_no_root(m as i32, items@);
                    assert forall|i: int| 0 <= i < (rest + c).len() implies tree_no_root(
                        #[trigger] (rest + c)[i].2,
                    ) by {
                        if i < rest.len() {
                            assert((rest + c)[i] == rest[i]);
                        } else {
                            assert((rest + c)[i] == c[i - rest.len()]);
                        }
                    }
                }
                lemma_under_stable(rest + c, m + 1, f);
                lemma_parents_children(m as i32, items@);
                lemma_under_none(c, f);
                lemma_under_add(rest, c, f);
                lemma_under_add(seq![q[0]], visits(rest + c, m + 1), f);
                assert(under(rest, f) + Seq::<QueueEntry>::empty() =~= under(rest, f));
            },
            _ => {
                lemma_under_stable(rest, m, f);
                lemma_under_add(seq![q[0]], visits(rest, m), f);
            },
        }
    }
}

proof fn lemma_parents_below_step(q: Seq<QueueEntry>, m: int, p: i32, items: Seq<(String, BrPendingFs)>, m2: int)
    requires
        parents_below(q, m),
        q.len() > 0,
        -1 <= p < m2,
        m <= m2,
    ensures
        parents_below(q.drop_first() + child_entries(p, items), m2),
{
    let rest = q.drop_first();
    let c = child_entries(p, items);
    assert forall|i: int| 0 <= i < (rest + c).len() implies -1 <= (#[trigger] (rest + c)[i]).0 < m2 by {
        if i < rest.len() {
            assert((rest + c)[i] == q[i + 1]);
        } else {
            assert((rest + c)[i] == c[i - rest.len()]);
        }
    }
}

/// Each folder that the walk visits lies at the top or in a folder with a
/// lower id than its own.
proof fn lemma_folder_parents(q: Seq<QueueEntry>, m: int)
    requires
        parents_below(q, m),
        0 <= m,
        m + queue_size(q) < i32::MAX,
    ensures
        forall|j: int|
            0 <= j < folder_entries(visits(q, m)).len() ==> -1 <= (#[trigger] folder_entries(
                visits(q, m),
            )[j]).0 < m + j,
    decreases queue_size(q),
{
    if q.len() > 0 {
        let rest = q.drop_first();
        lemma_queue_size_append(seq![q[0]], rest);
        assert(seq![q[0]] + rest =~= q);
        assert(seq![q[0]].drop_first() =~= Seq::<QueueEntry>::empty());
        assert(queue_size(seq![q[0]]) == node_size(q[0].2) + queue_size(Seq::<QueueEntry>::empty()));
        assert(-1 <= q[0].0 < m);
        match q[0].2 {
            BrPendingFs::Root(items) => {
                let c = child_entries(-1i32, items@);
                lemma_queue_size_append(rest, c);
                lemma_queue_size_children(-1i32, items@);
                lemma_parents_below_step(q, m, -1i32, items@, m);
                lemma_folder_parents(rest + c, m);
                let w = visits(rest + c, m);
                assert((seq![q[0]] + w).drop_first() =~= w);
                assert(folder_entries(visits(q, m)) == folder_entries(w));
            },
            BrPendingFs::Folder(Some(items)) => {
                let c = child_entries(m as i32, items@);
                lemma_queue_size_append(rest, c);
                lemma_queue_size_children(m as i32, items@);
                lemma_parents_below_step(q, m, m as i32, items@, m + 1);
                lemma_folder_parents(rest + c, m + 1);
                let w = visits(rest + c, m + 1);
                assert((seq![q[0]] + w).drop_first() =~= w);
                let fw = folder_entries(w);
                assert(folder_entries(visits(q, m)) == seq![q[0]] + fw);
                assert forall|j: int| 0 <= j < (seq![q[0]] + fw).len() implies -1 <= (
                #[trigger] (seq![q[0]] + fw)[j]).0 < m + j by {
                    if j > 0 {
                        assert((seq![q[0]] + fw)[j] == fw[j - 1]);
                    }
                }
            },
            _ => {
                lemma_parents_below_step(q, m, -1i32, Seq::<(String, BrPendingFs)>::empty(), m);
                assert(rest + child_entries(-1i32, Seq::<(String, BrPendingFs)>::empty()) =~= rest);
                lemma_folder_parents(rest, m);
                let w = visits(rest, m);
                assert((seq![q[0]] + w).drop_first() =~= w);
                assert(folder_entries(visits(q, m)) == folder_entries(w));
            },
        }
    }
}

proof fn lemma_under_prefix(e: QueueEntry, w: Seq<QueueEntry>, g: int)
    requires
        e.0 != g,
    ensures
        under(seq![e] + w, g) == under(w, g),
{
    lemma_under_add(seq![e], w, g);
    assert(seq![e].drop_first() =~= Seq::<QueueEntry>::empty());
    assert(seq![e][0] == e);
    assert(under(Seq::<QueueEntry>::empty(), g) == Seq::<QueueEntry>::empty());
    assert(under(seq![e], g) == under(seq![e].drop_first(), g));
    assert(under(seq![e], g) =~= Seq::<QueueEntry>::empty());
    assert(Seq::<QueueEntry>::empty() + under(w, g) =~= under(w, g));
}

/// The entries that the walk visits inside the folder with id `m + j` are
/// exactly the entries of that folder, in order.
proof fn lemma_folder_children(q: Seq<QueueEntry>, m: int)
    requires
        parents_below(q, m),
        0 <= m,
        m + queue_size(q) < i32::MAX,
    ensures
        forall|j: int|
            0 <= j < folder_entries(visits(q, m)).len() ==> (#[trigger] folder_entries(visits(q, m))[j].2
                matches BrPendingFs::Folder(Some(items)) && under(visits(q, m), m + j) == child_entries(
                (m + j) as i32,
                items@,
            )),
    decreases queue_size(q),
{
    if q.len() > 0 {
        let rest = q.drop_first();
        lemma_queue_size_append(seq![q[0]], rest);
        assert(seq![q[0]] + rest =~= q);
        assert(seq![q[0]].drop_first() =~= Seq::<QueueEntry>::empty());
        assert(queue_size(seq![q[0]]) == node_size(q[0].2) + queue_size(Seq::<QueueEntry>::empty()));
        assert(-1 <= q[0].0 < m);
        let fv = folder_entries(visits(q, m));
        match q[0].2 {
            BrPendingFs::Root(items) => {
                let c = child_entries(-1i32, items@);
                lemma_queue_size_append(rest, c);
                lemma_queue_size_children(-1i32, items@);
                lemma_parents_below_step(q, m, -1i32, items@, m);
                lemma_folder_children(rest + c, m);
                let w = visits(rest + c, m);
                assert((seq![q[0]] + w).drop_first() =~= w);
                assert(fv == folder_entries(w));
                assert forall|j: int| 0 <= j < fv.len() implies (#[trigger] fv[j].2 matches BrPendingFs::Folder(
                    Some(its),
                ) && under(visits(q, m), m + j) == child_entries((m + j) as i32, its@)) by {
                    lemma_under_prefix(q[0], w, m + j);
                }
            },
            BrPendingFs::Folder(Some(items)) => {
                let c = child_entries(m as i32, items@);
                lemma_queue_size_append(rest, c);
                lemma_queue_size_children(m as i32, items@);
                lemma_parents_below_step(q, m, m as i32, items@, m + 1);
                lemma_folder_children(rest + c, m + 1);
                let w = visits(rest + c, m + 1);
                assert((seq![q[0]] + w).drop_first() =~= w);
                let fw = folder_entries(w);
                assert(fv == seq![q[0]] + fw);
                // The folder visited first: its entries wait at the back of
                // the queue, and nothing else comes to lie in it.
                lemma_under_stable(rest + c, m + 1, m);
                lemma_under_add(rest, c, m);
                assert forall|i: int| 0 <= i < rest.len() implies (#[trigger] rest[i]).0 != m by {
                    assert(rest[i] == q[i + 1]);
                }
                lemma_under_none(rest, m);
                lemma_under_children(m as i32, items@);
                assert(Seq::<QueueEntry>::empty() + c =~= c);
                assert forall|j: int| 0 <= j < fv.len() implies (#[trigger] fv[j].2 matches BrPendingFs::Folder(
                    Some(its),
                ) && under(visits(q, m), m + j) == child_entries((m + j) as i32, its@)) by {
                    lemma_under_prefix(q[0], w, m + j);
                    if j > 0 {
                        assert(fv[j] == fw[j - 1]);
                        assert(m + 1 + (j - 1) == m + j);
                    }
                }
            },
            _ => {
                lemma_parents_below_step(q, m, -1i32, Seq::<(String, BrPendingFs)>::empty(), m);
                assert(rest + child_entries(-1i32, Seq::<(String, BrPendingFs)>::empty()) =~= rest);
                lemma_folder_children(rest, m);
                let w = visits(rest, m);
                assert((seq![q[0]] + w).drop_first() =~= w);
                assert(fv == folder_entries(w));
                assert forall|j: int| 0 <= j < fv.len() implies (#[trigger] fv[j].2 matches BrPendingFs::Folder(
                    Some(its),
                ) && under(visits(q, m), m + j) == child_entries((m + j) as i32, its@)) by {
                    lemma_under_prefix(q[0], w, m + j);
                }
            },
        }
    }
}

/// The folders with content among the entries of a folder, in order.
pub open spec fn folder_items(items: Seq<(String, BrPendingFs)>) -> Seq<(String, BrPendingFs)>
    decreases items.len(),
{
    if items.len() == 0 {
        seq![]
    } else if items[0].1 matches BrPendingFs::Folder(Some(_)) {
        seq![items[0]] + folder_items(items.drop_first())
    } else {
        folder_items(items.drop_first())
    }
}

/// The files with content among the entries of a folder, in order.
pub open spec fn file_items(items: Seq<(String, BrPendingFs)>) -> Seq<(String, BrPendingFs)>
    decreases items.len(),
{
    if items.len() == 0 {
        seq![]
    } else if items[0].1 matches BrPendingFs::File(Some(_)) {
        seq![items[0]] + file_items(items.drop_first())
    } else {
        file_items(items.drop_first())
    }
}

proof fn lemma_folder_entries_children(p: i32, items: Seq<(String, BrPendingFs)>)
    ensures
        folder_entries(child_entries(p, items)) == child_entries(p, folder_items(items)),
        file_entries(child_entries(p, items)) == child_entries(p, file_items(items)),
    decreases items.len(),
{
    let c = child_entries(p, items);
    if items.len() == 0 {
        assert(c =~= Seq::<QueueEntry>::empty());
        assert(child_entries(p, folder_items(items)) =~= Seq::<QueueEntry>::empty());
        assert(child_entries(p, file_items(items)) =~= Seq::<QueueEntry>::empty());
    } else {
        assert(c.drop_first() =~= child_entries(p, items.drop_first()));
        lemma_folder_entries_children(p, items.drop_first());
        assert(child_entries(p, seq![items[0]] + folder_items(items.drop_first())) =~= seq![c[0]]
            + child_entries(p, folder_items(items.drop_first())));
        assert(child_entries(p, seq![items[0]] + file_items(items.drop_first())) =~= seq![c[0]]
            + child_entries(p, file_items(items.drop_first())));
    }
}

proof fn lemma_under_folder_entries(s: Seq<QueueEntry>, f: int)
    ensures
        under(folder_entries(s), f) == folder_entries(under(s, f)),
        under(file_entries(s), f) == file_entries(under(s, f)),
    decreases s.len(),
{
    if s.len() > 0 {
        let t = s.drop_first();
        lemma_under_folder_entries(t, f);
        let e = seq![s[0]];
        assert(e.drop_first() =~= Seq::<QueueEntry>::empty());
        assert(e[0] == s[0]);
        if is_folder(s[0]) {
            assert((e + folder_entries(t)).drop_first() =~= folder_entries(t));
            assert((e + folder_entries(t))[0] == s[0]);
        }
        if is_file(s[0]) {
            assert((e + file_entries(t)).drop_first() =~= file_entries(t));
            assert((e + file_entries(t))[0] == s[0]);
        }
        if s[0].0 == f {
            assert((e + under(t, f)).drop_first() =~= under(t, f));
            assert((e + under(t, f))[0] == s[0]);
        }
    }
}

/// The content of a file entry.
pub open spec fn entry_content(e: QueueEntry) -> Seq<u8> {
    match e.2 {
        BrPendingFs::File(Some(c)) => c@,
        _ => seq![],
    }
}

/// The files that the walk meets, as [`queue_files`] lists them, are the
/// files among its visits.
proof fn lemma_queue_files_visits(q: Seq<QueueEntry>, m: int)
    ensures
        queue_files(q).len() == file_entries(visits(q, m)).len(),
        forall|j: int|
            0 <= j < queue_files(q).len() ==> (#[trigger] queue_files(q)[j]).0 == file_entries(
                visits(q, m),
            )[j].1 && queue_files(q)[j].1 == entry_content(file_entries(visits(q, m))[j]),
    decreases queue_size(q),
{
    if q.len() > 0 {
        let rest = q.drop_first();
        lemma_queue_size_append(seq![q[0]], rest);
        assert(seq![q[0]] + rest =~= q);
        match q[0].2 {
            BrPendingFs::Root(items) => {
                let c = child_entries(-1i32, items@);
                lemma_queue_size_append(rest, c);
                lemma_queue_size_children(-1i32, items@);
                lemma_queue_files_visits(rest + c, m);
                let w = visits(rest + c, m);
                assert((seq![q[0]] + w).drop_first() =~= w);
                assert(file_entries(visits(q, m)) == file_entries(w));
                assert(queue_files(q) == queue_files(rest + c));
            },
            BrPendingFs::Folder(Some(items)) => {
                let c = child_entries(m as i32, items@);
                let c0 = child_entries(-1i32, items@);
                lemma_queue_size_append(rest, c);
                lemma_queue_size_children(m as i32, items@);
                lemma_queue_files_visits(rest + c, m + 1);
                let w = visits(rest + c, m + 1);
                assert((seq![q[0]] + w).drop_first() =~= w);
                assert(file_entries(visits(q, m)) == file_entries(w));
                assert(queue_files(q) == queue_files(rest + c0));
                assert forall|i: int| 0 <= i < (rest + c).len() implies (#[trigger] (rest + c)[i]).1 == (
                rest + c0)[i].1 && (rest + c)[i].2 == (rest + c0)[i].2 by {}
                crate::archive_read::lemma_queue_files_parents(rest + c, rest + c0);
            },
            BrPendingFs::File(Some(content)) => {
                lemma_queue_files_visits(rest, m);
                let w = visits(rest, m);
                assert((seq![q[0]] + w).drop_first() =~= w);
                let gw = file_entries(w);
                assert(file_entries(visits(q, m)) == seq![q[0]] + gw);
                let qf = queue_files(q);
                assert(qf == seq![(q[0].1, content@)] + queue_files(rest));
                assert forall|j: int| 0 <= j < qf.len() implies (#[trigger] qf[j]).0 == (seq![q[0]]
                    + gw)[j].1 && qf[j].1 == entry_content((seq![q[0]] + gw)[j]) by {
                    if j > 0 {
                        assert(qf[j] == queue_files(rest)[j - 1]);
                        assert((seq![q[0]] + gw)[j] == gw[j - 1]);
                    }
                }
            },
            _ => {
                lemma_queue_files_visits(rest, m);
                let w = visits(rest, m);
                assert((seq![q[0]] + w).drop_first() =~= w);
                assert(file_entries(visits(q, m)) == file_entries(w));
                assert(queue_files(q) == queue_files(rest));
            },
        }
    }
}

/// At the top, the walk visits the root itself and then its entries.
proof fn lemma_top_children(top: Seq<(String, BrPendingFs)>, q: Seq<QueueEntry>)
    requires
        items_no_root(top),
        q.len() == 1,
        q[0].0 == -1,
        q[0].2 matches BrPendingFs::Root(items) && items@ == top,
        queue_size(q) < i32::MAX,
    ensures
        under(visits(q, 0), -1) == q + child_entries(-1i32, top),
{
    let c = child_entries(-1i32, top);
    let rest = q.drop_first();
    assert(rest =~= Seq::<QueueEntry>::empty());
    assert(rest + c =~= c);
    lemma_queue_size_append(seq![q[0]], rest);
    assert(seq![q[0]] + rest =~= q);
    assert(seq![q[0]].drop_first() =~= Seq::<QueueEntry>::empty());
    assert(queue_size(seq![q[0]]) == node_size(q[0].2) + queue_size(Seq::<QueueEntry>::empty()));
    lemma_queue_size_children(-1i32, top);
    lemma_children_no_root(-1i32, top);
    lemma_under_stable(c, 0, -1);
    lemma_parents_children(-1i32, top);
    lemma_under_children(-1i32, top);
    let w = visits(c, 0);
    assert(visits(q, 0) == seq![q[0]] + w);
    lemma_under_add(seq![q[0]], w, -1);
    assert(seq![q[0]][0] == q[0]);
    assert(under(seq![q[0]], -1) == seq![q[0]] + under(seq![q[0]].drop_first(), -1));
    assert(under(Seq::<QueueEntry>::empty(), -1) == Seq::<QueueEntry>::empty());
    assert(seq![q[0]] =~= q);
}

/// The ids that [`child_folder_ids`] lists are the positions of the folders
/// lying in `p`, in order.
proof fn lemma_child_folder_positions(d: IndexView, fv: Seq<QueueEntry>, p: int, i: int)
    requires
        d.folder_parent_ids == parents(fv),
        forall|k: int| 0 <= k < fv.len() ==> (#[trigger] fv[k]).0 < k,
        0 <= i <= fv.len(),
    ensures
        child_folder_ids(d, p, i).len() == under(fv.skip(i), p).len(),
        forall|j: int|
            0 <= j < child_folder_ids(d, p, i).len() ==> 0 <= #[trigger] child_folder_ids(d, p, i)[j]
                < fv.len() && fv[child_folder_ids(d, p, i)[j]] == under(fv.skip(i), p)[j],
    decreases fv.len() - i,
{
    if i == fv.len() {
        assert(fv.skip(i) =~= Seq::<QueueEntry>::empty());
    } else {
        lemma_child_folder_positions(d, fv, p, i + 1);
        assert(fv.skip(i).drop_first() =~= fv.skip(i + 1));
        assert(fv.skip(i)[0] == fv[i]);
        assert(d.folder_parent_ids[i] == fv[i].0);
        let rest = child_folder_ids(d, p, i + 1);
        if fv[i].0 == p {
            assert(i > p);
            assert forall|j: int| 0 < j < (seq![i] + rest).len() implies (seq![i] + rest)[j] == rest[j
                - 1] by {}
            let u = seq![fv[i]] + under(fv.skip(i + 1), p);
            assert forall|j: int| 0 < j < u.len() implies #[trigger] u[j] == under(fv.skip(i + 1), p)[j - 1] by {}
        }
    }
}

/// The ids that [`child_file_ids`] lists are the positions of the files
/// lying in `p`, in order.
proof fn lemma_child_file_positions(d: IndexView, gv: Seq<QueueEntry>, p: int, i: int)
    requires
        d.file_parent_ids == parents(gv),
        0 <= i <= gv.len(),
    ensures
        child_file_ids(d, p, i).len() == under(gv.skip(i), p).len(),
        forall|j: int|
            0 <= j < child_file_ids(d, p, i).len() ==> 0 <= #[trigger] child_file_ids(d, p, i)[j]
                < gv.len() && gv[child_file_ids(d, p, i)[j]] == under(gv.skip(i), p)[j],
    decreases gv.len() - i,
{
    if i == gv.len() {
        assert(gv.skip(i) =~= Seq::<QueueEntry>::empty());
    } else {
        lemma_child_file_positions(d, gv, p, i + 1);
        assert(gv.skip(i).drop_first() =~= gv.skip(i + 1));
        assert(gv.skip(i)[0] == gv[i]);
        assert(d.file_parent_ids[i] == gv[i].0);
        let rest = child_file_ids(d, p, i + 1);
        if gv[i].0 == p {
            assert forall|j: int| 0 < j < (seq![i] + rest).len() implies (seq![i] + rest)[j] == rest[j
                - 1] by {}
            let u = seq![gv[i]] + under(gv.skip(i + 1), p);
            assert forall|j: int| 0 < j < u.len() implies #[trigger] u[j] == under(gv.skip(i + 1), p)[j - 1] by {}
        }
    }
}

/// `out` is what unpacking gives back for the tree `node`: a folder with
/// content becomes a folder whose entries are those of [`entries_unpacked`],
/// with as many entries as the folder has folders and files with content;
/// a file with content becomes a file with the same content.
pub open spec fn node_unpacked(node: BrPendingFs, out: BrPendingFs) -> bool
    decreases node,
{
    match node {
        BrPendingFs::Folder(Some(items)) => out matches BrPendingFs::Folder(Some(o)) && o@.len()
            == folder_items(items@).len() + file_items(items@).len() && entries_unpacked(
            items@,
            o@,
            0,
            folder_items(items@).len() as int,
        ),
        BrPendingFs::File(Some(c)) => out matches BrPendingFs::File(Some(c2)) && c2@ == c@,
        _ => false,
    }
}

/// `out` holds the unpacked entries of `items`: the folders with content in
/// order from position `a` on, the files with content in order from position
/// `b` on, each under its own name and unpacked (see [`node_unpacked`]).
pub open spec fn entries_unpacked(
    items: Seq<(String, BrPendingFs)>,
    out: Seq<(String, BrPendingFs)>,
    a: int,
    b: int,
) -> bool
    decreases items,
{
    if items.len() == 0 {
        true
    } else {
        match items[0].1 {
            BrPendingFs::Folder(Some(_)) => 0 <= a < out.len() && out[a].0@ == items[0].0@
                && node_unpacked(items[0].1, out[a].1) && entries_unpacked(
                items.drop_first(),
                out,
                a + 1,
                b,
            ),
            BrPendingFs::File(Some(_)) => 0 <= b < out.len() && out[b].0@ == items[0].0@
                && node_unpacked(items[0].1, out[b].1) && entries_unpacked(
                items.drop_first(),
                out,
                a,
                b + 1,
            ),
            _ => entries_unpacked(items.drop_first(), out, a, b),
        }
    }
}

/// Whether entry `k` of `es` stands in `out` at position `a + k`, under its
/// own name and unpacked.
pub open spec fn placed_at(
    es: Seq<(String, BrPendingFs)>,
    out: Seq<(String, BrPendingFs)>,
    a: int,
    k: int,
) -> bool {
    0 <= a + k && a + k < out.len() && out[a + k].0@ == es[k].0@ && node_unpacked(es[k].1, out[a + k].1)
}

/// Whether the entries `es` stand in `out` from position `a` on.
pub open spec fn placed_from(es: Seq<(String, BrPendingFs)>, out: Seq<(String, BrPendingFs)>, a: int) -> bool {
    forall|k: int| 0 <= k < es.len() ==> #[trigger] placed_at(es, out, a, k)
}

proof fn lemma_placed_tail(
    e: (String, BrPendingFs),
    es: Seq<(String, BrPendingFs)>,
    out: Seq<(String, BrPendingFs)>,
    a: int,
)
    requires
        placed_from(seq![e] + es, out, a),
    ensures
        placed_from(es, out, a + 1),
        0 <= a < out.len() && out[a].0@ == e.0@ && node_unpacked(e.1, out[a].1),
{
    let all = seq![e] + es;
    assert(all[0] == e);
    assert(placed_at(all, out, a, 0));
    assert forall|k: int| 0 <= k < es.len() implies #[trigger] placed_at(es, out, a + 1, k) by {
        assert(placed_at(all, out, a, k + 1));
        assert(all[k + 1] == es[k]);
        assert(a + (k + 1) == (a + 1) + k);
    }
}

proof fn lemma_entries_placed(
    items: Seq<(String, BrPendingFs)>,
    out: Seq<(String, BrPendingFs)>,
    a: int,
    b: int,
)
    requires
        placed_from(folder_items(items), out, a),
        placed_from(file_items(items), out, b),
    ensures
        entries_unpacked(items, out, a, b),
    decreases items.len(),
{
    if items.len() > 0 {
        let t = items.drop_first();
        match items[0].1 {
            BrPendingFs::Folder(Some(_)) => {
                assert(folder_items(items) == seq![items[0]] + folder_items(t));
                assert(file_items(items) == file_items(t));
                lemma_placed_tail(items[0], folder_items(t), out, a);
                lemma_entries_placed(t, out, a + 1, b);
            },
            BrPendingFs::File(Some(_)) => {
                assert(file_items(items) == seq![items[0]] + file_items(t));
                assert(folder_items(items) == folder_items(t));
                lemma_placed_tail(items[0], file_items(t), out, b);
                lemma_entries_placed(t, out, a, b + 1);
            },
            _ => {
                assert(folder_items(items) == folder_items(t));
                assert(file_items(items) == file_items(t));
                lemma_entries_placed(t, out, a, b);
            },
        }
    }
}

proof fn lemma_file_entries_files(s: Seq<QueueEntry>)
    ensures
        forall|k: int| 0 <= k < file_entries(s).len() ==> is_file(#[trigger] file_entries(s)[k]),
    decreases s.len(),
{
    if s.len() > 0 {
        lemma_file_entries_files(s.drop_first());
        let t = file_entries(s.drop_first());
        if is_file(s[0]) {
            assert forall|k: int| 0 < k < (seq![s[0]] + t).len() implies (seq![s[0]] + t)[k] == t[k - 1] by {}
        }
    }
}

/// What the walk that made the archive `v` tells of it: `vs` are its visits.
spec fn walk_facts(v: BrzView, vs: Seq<QueueEntry>) -> bool {
    let fv = folder_entries(vs);
    let gv = file_entries(vs);
    let d = v.index_data;
    &&& fv.len() <= i32::MAX
    &&& d.folder_parent_ids == parents(fv)
    &&& d.folder_names == entry_names(fv)
    &&& d.file_parent_ids == parents(gv)
    &&& d.file_names == entry_names(gv)
    &&& forall|k: int| 0 <= k < fv.len() ==> -1 <= (#[trigger] fv[k]).0 < k
    &&& forall|j: int|
        0 <= j < fv.len() ==> (#[trigger] fv[j].2 matches BrPendingFs::Folder(Some(items)) && under(vs, j)
            == child_entries(j as i32, items@))
    &&& forall|i: int| 0 <= i < gv.len() ==> file_content(v, i) == Some(entry_content(#[trigger] gv[i]))
}

/// The entries that `folder_rel` relates to folder `f` of the archive are
/// the unpacked entries of the folder of the tree that became folder `f`.
proof fn lemma_rel_unpacked(
    v: BrzView,
    vs: Seq<QueueEntry>,
    f: int,
    items: Seq<(String, BrPendingFs)>,
    out: Seq<(String, BrPendingFs)>,
)
    requires
        walk_facts(v, vs),
        -1 <= f < folder_entries(vs).len(),
        under(folder_entries(vs), f) == child_entries(f as i32, folder_items(items)),
        under(file_entries(vs), f) == child_entries(f as i32, file_items(items)),
        folder_rel(v, f, out),
    ensures
        out.len() == folder_items(items).len() + file_items(items).len(),
        entries_unpacked(items, out, 0, folder_items(items).len() as int),
    decreases folder_entries(vs).len() - f,
{
    let d = v.index_data;
    let fv = folder_entries(vs);
    let gv = file_entries(vs);
    let fo = folder_items(items);
    let fi = file_items(items);
    let fs = child_folder_ids(d, f, 0);
    let gs = child_file_ids(d, f, 0);
    assert(fv.skip(0) =~= fv);
    assert(gv.skip(0) =~= gv);
    assert forall|k: int| 0 <= k < fv.len() implies (#[trigger] fv[k]).0 < k by {}
    lemma_child_folder_positions(d, fv, f, 0);
    lemma_child_file_positions(d, gv, f, 0);
    assert(fs.len() == fo.len());
    assert(gs.len() == fi.len());
    assert forall|k: int| 0 <= k < fo.len() implies #[trigger] placed_at(fo, out, 0, k) by {
        let g = fs[k];
        assert(fv[g] == child_entries(f as i32, fo)[k]);
        assert(out[k] == out[k]);
        assert(out[k].0@ == d.folder_names[g]);
        assert(d.folder_names[g] == fv[g].1);
        assert(fv[g].0 == f);
        assert(fv[g].2 matches BrPendingFs::Folder(Some(its)) && under(vs, g) == child_entries(g as i32, its@));
        let its = fv[g].2->Folder_0.unwrap();
        assert(fo[k].1 == fv[g].2);
        let sub = out[k].1->Folder_0.unwrap();
        assert(f < g < d.folder_parent_ids.len());
        assert(folder_rel(v, g, sub@));
        lemma_under_folder_entries(vs, g);
        lemma_folder_entries_children(g as i32, its@);
        lemma_rel_unpacked(v, vs, g, its@, sub@);
    }
    assert forall|k: int| 0 <= k < fi.len() implies #[trigger] placed_at(fi, out, fo.len() as int, k) by {
        let g = gs[k];
        assert(gv[g] == child_entries(f as i32, fi)[k]);
        assert(out[fs.len() + k] == out[fs.len() + k]);
        assert(d.file_names[g] == gv[g].1);
        assert(fi[k].1 == gv[g].2);
        lemma_file_entries_files(vs);
        assert(is_file(gv[g]));
        assert(file_content(v, g) == Some(entry_content(gv[g])));
    }
    lemma_entries_placed(items, out, 0, fo.len() as int);
}

/// `out` holds what unpacking gives back for the root `fs`: the folders with
/// content at the top, then the files with content, each under its own name
/// and unpacked (see [`node_unpacked`]).
pub open spec fn root_unpacked(fs: BrPendingFs, out: Seq<(String, BrPendingFs)>) -> bool {
    fs matches BrPendingFs::Root(top) && out.len() == folder_items(top@).len() + file_items(top@).len()
        && entries_unpacked(top@, out, 0, folder_items(top@).len() as int)
}

/// Packing a tree and unpacking the archive gives the tree back. Whatever
/// entries `Brz::to_pending` places at the top of the archive that
/// `BrPendingFs::to_brz_data` packs a root into (see [`folder_rel`]) are the
/// entries of the root: first its folders with content, then its files with
/// content, each in the order of the tree and under its own name; each
/// folder holds its own entries in the same way and each file its content.
/// Entries without content are not packed and do not come back.
///
/// This holds of a root with no root further down (a root inside a folder
/// would put its entries at the top) and rests on the outside facts that
/// [`crate::archive_read::lemma_archive_contents`] takes of the contents.
pub proof fn lemma_pack_unpack(fs: BrPendingFs, level: Option<i32>, b: Brz, out: Seq<(String, BrPendingFs)>)
    requires
        fs matches BrPendingFs::Root(top) && items_no_root(top@),
        node_size(fs) < i32::MAX,
        tree_fits(fs),
        archive_of(fs, level) == Ok::<BrzView, ()>(b@),
        forall|j1: int, j2: int|
            0 <= j1 < tree_files(fs).len() && 0 <= j2 < tree_files(fs).len() && blake3_digest(
                #[trigger] tree_files(fs)[j1].1,
            ) == blake3_digest(#[trigger] tree_files(fs)[j2].1) ==> tree_files(fs)[j1].1 == tree_files(
                fs,
            )[j2].1,
        forall|j: int|
            0 <= j < tree_files(fs).len() ==> (level matches Some(l) ==> (zstd_compressed(
                #[trigger] tree_files(fs)[j].1,
                l,
            ) matches Some(z) ==> (z.len() < tree_files(fs)[j].1.len() ==> zstd_decompressed(
                z,
                tree_files(fs)[j].1.len() as usize,
            ) == Some(tree_files(fs)[j].1)))),
        folder_rel(b@, -1, out),
    ensures
        root_unpacked(fs, out),
{
    let top = fs->Root_0;
    let q0 = seq![(-1i32, "Root"@, fs)];
    let vs = visits(q0, 0);
    let fv = folder_entries(vs);
    let gv = file_entries(vs);
    let d = b@.index_data;
    assert(q0.drop_first() =~= Seq::<QueueEntry>::empty());
    assert(queue_size(q0) == node_size(fs) + queue_size(Seq::<QueueEntry>::empty()));
    let v = bfs_run(level, q0, empty_archive()).unwrap();
    lemma_bfs_lists(level, q0, empty_archive(), 0);
    assert(d.folder_parent_ids == v.index_data.folder_parent_ids);
    assert(Seq::<i32>::empty() + parents(fv) =~= parents(fv));
    assert(Seq::<Seq<char>>::empty() + entry_names(fv) =~= entry_names(fv));
    assert(Seq::<i32>::empty() + parents(gv) =~= parents(gv));
    assert(Seq::<Seq<char>>::empty() + entry_names(gv) =~= entry_names(gv));
    assert(parents_below(q0, 0));
    lemma_folder_parents(q0, 0);
    lemma_folder_children(q0, 0);
    assert forall|j: int| 0 <= j < fv.len() implies (#[trigger] fv[j].2 matches BrPendingFs::Folder(
        Some(items),
    ) && under(vs, j) == child_entries(j as i32, items@)) by {
        assert(0 + j == j);
    }
    assert forall|k: int| 0 <= k < fv.len() implies -1 <= (#[trigger] fv[k]).0 < k by {
        assert(0 + k == k);
    }
    lemma_archive_contents(fs, level, b);
    lemma_queue_files_visits(q0, 0);
    assert forall|i: int| 0 <= i < gv.len() implies file_content(b@, i) == Some(
        entry_content(#[trigger] gv[i]),
    ) by {
        assert(tree_files(fs)[i] == queue_files(q0)[i]);
    }
    assert(walk_facts(b@, vs));
    lemma_top_children(top@, q0);
    lemma_under_folder_entries(vs, -1);
    lemma_folder_entries_add(q0, child_entries(-1i32, top@));
    lemma_file_entries_add(q0, child_entries(-1i32, top@));
    lemma_folder_entries_children(-1i32, top@);
    assert(folder_entries(q0) =~= Seq::<QueueEntry>::empty()) by {
        assert(!is_folder(q0[0]));
        assert(folder_entries(q0.drop_first()) == Seq::<QueueEntry>::empty());
    }
    assert(file_entries(q0) =~= Seq::<QueueEntry>::empty()) by {
        assert(!is_file(q0[0]));
        assert(file_entries(q0.drop_first()) == Seq::<QueueEntry>::empty());
    }
    assert(Seq::<QueueEntry>::empty() + child_entries(-1i32, folder_items(top@)) =~= child_entries(
        -1i32,
        folder_items(top@),
    ));
    assert(Seq::<QueueEntry>::empty() + child_entries(-1i32, file_items(top@)) =~= child_entries(
        -1i32,
        file_items(top@),
    ));
    lemma_rel_unpacked(b@, vs, -1, top@, out);
}

} // verus!
