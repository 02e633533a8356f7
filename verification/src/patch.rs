//! Applying one pending filesystem tree to another as a patch: folders are
//! merged entry by entry, files are replaced, and `None` in the patch leaves
//! the node as it is.
use vstd::prelude::*;

use crate::errors::BrFsError;
use crate::pending::{
    cd_spec, find_child, find_child_index, lemma_find_child, str_chars, string_eq_chars, BrPendingFs,
};
use crate::pending_size::{items_size, lemma_items_size_elem, node_size};
use crate::render::render;
use crate::tree_view::{items_view, tree_view};

verus! {

/// The entries of a patch folder with one entry per name: the last one given
/// for the name, in the order of those last entries.
pub open spec fn dedup_last(items: Seq<(String, BrPendingFs)>) -> Seq<(String, BrPendingFs)>
    decreases items.len(),
{
    if items.len() == 0 {
        seq![]
    } else if find_child(items.drop_first(), items[0].0@) is Some {
        dedup_last(items.drop_first())
    } else {
        seq![items[0]] + dedup_last(items.drop_first())
    }
}

pub proof fn lemma_dedup_size(items: Seq<(String, BrPendingFs)>)
    ensures
        items_size(dedup_last(items)) <= items_size(items),
    decreases items.len(),
{
    if items.len() > 0 {
        lemma_dedup_size(items.drop_first());
        let d = dedup_last(items.drop_first());
        assert((seq![items[0]] + d).drop_first() =~= d);
    }
}

/// The first conflict met in patching `t` with `p`: a node and the patch node
/// of another kind that was to be applied to it. Entries of a folder are
/// patched in order, each by the entry of the patch with its name.
pub open spec fn patch_err(t: BrPendingFs, p: BrPendingFs) -> Option<(BrPendingFs, BrPendingFs)>
    decreases node_size(p), 1nat, 0nat,
{
    match p {
        BrPendingFs::Root(pi) => match t {
            BrPendingFs::Root(c) => {
                proof {
                    lemma_dedup_size(pi@);
                }
                items_err(c@, dedup_last(pi@))
            },
            _ => Some((t, p)),
        },
        BrPendingFs::Folder(Some(pi)) => match t {
            BrPendingFs::Folder(Some(c)) => {
                proof {
                    lemma_dedup_size(pi@);
                }
                items_err(c@, dedup_last(pi@))
            },
            BrPendingFs::Folder(None) => None,
            _ => Some((t, p)),
        },
        BrPendingFs::Folder(None) => if t is Folder {
            None
        } else {
            Some((t, p))
        },
        BrPendingFs::File(_) => if t is File {
            None
        } else {
            Some((t, p))
        },
    }
}

/// The first conflict met in patching the entries `c` with the patch entries
/// `pm` (one per name).
pub open spec fn items_err(c: Seq<(String, BrPendingFs)>, pm: Seq<(String, BrPendingFs)>) -> Option<
    (BrPendingFs, BrPendingFs),
>
    decreases items_size(pm), 2nat, c.len(),
{
    if c.len() == 0 {
        None
    } else {
        match find_child(pm, c[0].0@) {
            None => items_err(c.drop_first(), pm),
            Some(k) => {
                proof {
                    lemma_find_child(pm, c[0].0@);
                    lemma_items_size_elem(pm, k);
                }
                match patch_err(c[0].1, pm[k].1) {
                    Some(e) => Some(e),
                    None => items_err(c.drop_first(), pm.remove(k)),
                }
            },
        }
    }
}

/// `t2` is what patching `t` with `p` leaves: a folder (or root) patched by a
/// folder (or root) has each entry patched by the patch entry of its name, in
/// order, and then the patch entries no entry had appended; where a conflict
/// stops the patch, the entries after it stay as they were and nothing is
/// appended. An unchanged folder takes the patch folder; a file takes the
/// patch file's content; `None` in the patch and a conflict leave the node.
pub open spec fn patch_rel(t: BrPendingFs, p: BrPendingFs, t2: BrPendingFs) -> bool
    decreases node_size(p), 1nat, 0nat,
{
    match p {
        BrPendingFs::Root(pi) => match t {
            BrPendingFs::Root(c) => {
                proof {
                    lemma_dedup_size(pi@);
                }
                t2 matches BrPendingFs::Root(c2) && items_rel(c@, dedup_last(pi@), c2@)
            },
            _ => t2 == t,
        },
        BrPendingFs::Folder(Some(pi)) => match t {
            BrPendingFs::Folder(Some(c)) => {
                proof {
                    lemma_dedup_size(pi@);
                }
                t2 matches BrPendingFs::Folder(Some(c2)) && items_rel(c@, dedup_last(pi@), c2@)
            },
            BrPendingFs::Folder(None) => t2 == p,
            _ => t2 == t,
        },
        BrPendingFs::Folder(None) => t2 == t,
        BrPendingFs::File(Some(_)) => if t is File {
            t2 == p
        } else {
            t2 == t
        },
        BrPendingFs::File(None) => t2 == t,
    }
}

/// `c2` is what patching the entries `c` with the patch entries `pm` leaves
/// (see [`patch_rel`]).
pub open spec fn items_rel(
    c: Seq<(String, BrPendingFs)>,
    pm: Seq<(String, BrPendingFs)>,
    c2: Seq<(String, BrPendingFs)>,
) -> bool
    decreases items_size(pm), 2nat, c.len(),
{
    if c.len() == 0 {
        c2 == pm
    } else {
        match find_child(pm, c[0].0@) {
            None => c2.len() > 0 && c2[0] == c[0] && items_rel(c.drop_first(), pm, c2.drop_first()),
            Some(k) => {
                proof {
                    lemma_find_child(pm, c[0].0@);
                    lemma_items_size_elem(pm, k);
                }
                &&& c2.len() > 0
                &&& c2[0].0 == c[0].0
                &&& patch_rel(c[0].1, pm[k].1, c2[0].1)
                &&& if patch_err(c[0].1, pm[k].1) is Some {
                    c2.drop_first() == c.drop_first()
                } else {
                    items_rel(c.drop_first(), pm.remove(k), c2.drop_first())
                }
            },
        }
    }
}

/// Patching fixes one result: two trees that patching `t` with `p` may
/// leave hold the same names and contents.
pub proof fn lemma_patch_rel_unique(t: BrPendingFs, p: BrPendingFs, t2: BrPendingFs, t3: BrPendingFs)
    requires
        patch_rel(t, p, t2),
        patch_rel(t, p, t3),
    ensures
        tree_view(t2) == tree_view(t3),
    decreases node_size(p), 1nat, 0nat,
{
    match p {
        BrPendingFs::Root(pi) => match t {
            BrPendingFs::Root(c) => {
                lemma_dedup_size(pi@);
                let c2 = t2->Root_0;
                let c3 = t3->Root_0;
                lemma_items_rel_unique(c@, dedup_last(pi@), c2@, c3@);
            },
            _ => {},
        },
        BrPendingFs::Folder(Some(pi)) => match t {
            BrPendingFs::Folder(Some(c)) => {
                lemma_dedup_size(pi@);
                let c2 = t2->Folder_0->Some_0;
                let c3 = t3->Folder_0->Some_0;
                lemma_items_rel_unique(c@, dedup_last(pi@), c2@, c3@);
            },
            _ => {},
        },
        _ => {},
    }
}

/// Patching entries fixes one result (see [`lemma_patch_rel_unique`]).
pub proof fn lemma_items_rel_unique(
    c: Seq<(String, BrPendingFs)>,
    pm: Seq<(String, BrPendingFs)>,
    c2: Seq<(String, BrPendingFs)>,
    c3: Seq<(String, BrPendingFs)>,
)
    requires
        items_rel(c, pm, c2),
        items_rel(c, pm, c3),
    ensures
        items_view(c2) == items_view(c3),
    decreases items_size(pm), 2nat, c.len(),
{
    if c.len() > 0 {
        match find_child(pm, c[0].0@) {
            None => {
                lemma_items_rel_unique(c.drop_first(), pm, c2.drop_first(), c3.drop_first());
            },
            Some(k) => {
                lemma_find_child(pm, c[0].0@);
                lemma_items_size_elem(pm, k);
                lemma_patch_rel_unique(c[0].1, pm[k].1, c2[0].1, c3[0].1);
                if patch_err(c[0].1, pm[k].1) is None {
                    lemma_items_rel_unique(c.drop_first(), pm.remove(k), c2.drop_first(), c3.drop_first());
                }
            },
        }
        assert(items_view(c2) == seq![(c2[0].0@, tree_view(c2[0].1))] + items_view(c2.drop_first()));
        assert(items_view(c3) == seq![(c3[0].0@, tree_view(c3[0].1))] + items_view(c3.drop_first()));
    }
}

/// Whether an entry after position `i` is named `name`.
fn later_has_name(items: &Vec<(String, BrPendingFs)>, i: usize, name: &Vec<char>) -> (b: bool)
    requires
        i < items.len(),
    ensures
        b == (find_child(items@.skip(i + 1), name@) is Some),
{
    let ghost tail = items@.skip(i + 1);
    proof {
        lemma_find_child(tail, name@);
    }
    let mut j: usize = i + 1;
    while j < items.len()
        invariant
            i + 1 <= j <= items@.len(),
            tail == items@.skip(i + 1),
            forall|m: int| i + 1 <= m < j ==> items@[m].0@ != name@,
            find_child(tail, name@) is None ==> forall|m: int|
                0 <= m < tail.len() ==> tail[m].0@ != name@,
            find_child(tail, name@) matches Some(f) ==> 0 <= f < tail.len() && tail[f].0@ == name@,
        decreases items@.len() - j,
    {
        if string_eq_chars(&items[j].0, name) {
            assert(tail[j - i - 1] == items@[j as int]);
            return true;
        }
        j = j + 1;
    }
    proof {
        if find_child(tail, name@) is Some {
            let f = find_child(tail, name@).unwrap();
            assert(tail[f] == items@[f + i + 1]);
        }
    }
    false
}

/// The entries of `items`, one per name (see [`dedup_last`]).
fn dedup_names(items: Vec<(String, BrPendingFs)>) -> (out: Vec<(String, BrPendingFs)>)
    ensures
        out@ == dedup_last(items@),
{
    let ghost all = items@;
    let mut keep: Vec<bool> = Vec::new();
    let mut i: usize = 0;
    while i < items.len()
        invariant
            0 <= i <= items@.len(),
            all == items@,
            keep@.len() == i,
            forall|m: int| 0 <= m < i ==> keep@[m] == (find_child(all.skip(m + 1), all[m].0@) is None),
        decreases items@.len() - i,
    {
        let name = str_chars(items[i].0.as_str());
        let later = later_has_name(&items, i, &name);
        keep.push(!later);
        i = i + 1;
    }
    let mut out: Vec<(String, BrPendingFs)> = Vec::new();
    let mut n: usize = 0;
    let total = items.len();
    assert(all.skip(0) =~= all);
    for e in it: items.into_iter()
        invariant
            it.seq() == all,
            n == it.index(),
            total == all.len(),
            keep@.len() == all.len(),
            forall|m: int| 0 <= m < all.len() ==> keep@[m] == (find_child(all.skip(m + 1), all[m].0@) is None),
            out@ + dedup_last(all.skip(it.index() as int)) == dedup_last(all),
    {
        let ghost idx = it.index() as int;
        let ghost rest = all.skip(idx);
        assert(rest.drop_first() =~= all.skip(idx + 1));
        assert(rest[0] == all[idx]);
        if keep[n] {
            let ghost before = out@;
            out.push(e);
            assert(out@ + dedup_last(all.skip(idx + 1)) =~= before + dedup_last(rest));
        }
        n = n + 1;
    }
    assert(all.skip(all.len() as int) =~= Seq::<(String, BrPendingFs)>::empty());
    assert(out@ + Seq::<(String, BrPendingFs)>::empty() =~= out@);
    out
}

/// `e` reports the conflict between the node `l` and the patch node `r`,
/// each by its text form.
pub open spec fn conflict_of(e: BrFsError, l: BrPendingFs, r: BrPendingFs) -> bool {
    e matches BrFsError::InvalidStructure(a, b) && a@ == render(l) && b@ == render(r)
}

fn conflict(t: &BrPendingFs, p: &BrPendingFs) -> (e: BrFsError)
    ensures
        conflict_of(e, *t, *p),
{
    BrFsError::InvalidStructure(t.to_string(), p.to_string())
}

/// Patches the entries `children` of a folder with the entries `pitems` of a
/// patch folder (see [`items_rel`]).
fn patch_children(children: &mut Vec<(String, BrPendingFs)>, pitems: Vec<(String, BrPendingFs)>) -> (res:
    Result<(), BrFsError>)
    ensures
        items_rel(old(children)@, dedup_last(pitems@), final(children)@),
        match items_err(old(children)@, dedup_last(pitems@)) {
            None => res is Ok,
            Some((l, r)) => res matches Err(e) && conflict_of(e, l, r),
        },
    decreases items_size(pitems@), 2nat,
{
    let ghost c0 = children@;
    let ghost pi = pitems@;
    let ghost pm0 = dedup_last(pitems@);
    proof {
        lemma_dedup_size(pitems@);
    }
    let mut pm = dedup_names(pitems);
    let mut i: usize = 0;
    assert(c0.skip(0) =~= c0);
    assert forall|x: Seq<(String, BrPendingFs)>|
        x.len() >= 0 && x.take(0) == children@.take(0) && items_rel(c0.skip(0), pm@, x.skip(0))
            implies items_rel(c0, pm0, x) by {
        assert(x.skip(0) =~= x);
    }
    while i < children.len()
        invariant
            0 <= i <= children@.len(),
            children@.len() == c0.len(),
            forall|j: int| i <= j < c0.len() ==> children@[j] == c0[j],
            items_err(c0, pm0) == items_err(c0.skip(i as int), pm@),
            forall|x: Seq<(String, BrPendingFs)>|
                x.len() >= i && x.take(i as int) == children@.take(i as int) && items_rel(
                    c0.skip(i as int),
                    pm@,
                    x.skip(i as int),
                ) ==> items_rel(c0, pm0, x),
            items_size(pm@) <= items_size(pi),
            pm0 == dedup_last(pi),
            c0 == old(children)@,
            pi == pitems@,
        decreases c0.len() - i,
    {
        let ghost pm_before = pm@;
        let ghost ch_before = children@;
        let ghost rest = c0.skip(i as int);
        assert(rest[0] == c0[i as int]);
        assert(rest.drop_first() =~= c0.skip(i + 1));
        let name = str_chars(children[i].0.as_str());
        match find_child_index(&pm, &name) {
            None => {
                assert forall|x: Seq<(String, BrPendingFs)>|
                    x.len() >= i + 1 && x.take(i + 1) == children@.take(i + 1) && items_rel(
                        c0.skip(i + 1),
                        pm@,
                        x.skip(i + 1),
                    ) implies items_rel(c0, pm0, x) by {
                    assert(x.take(i as int) =~= x.take(i + 1).take(i as int));
                    assert(children@.take(i as int) =~= children@.take(i + 1).take(i as int));
                    assert(x[i as int] == x.take(i + 1)[i as int]);
                    assert(x.skip(i as int).drop_first() =~= x.skip(i + 1));
                    assert(x.skip(i as int)[0] == x[i as int]);
                    assert(items_rel(rest, pm@, x.skip(i as int)));
                }
            },
            Some(k) => {
                proof {
                    lemma_find_child(pm@, name@);
                    lemma_items_size_elem(pm@, k as int);
                }
                let (_, p) = pm.remove(k);
                let ghost pk = p;
                let entry = &mut children[i];
                let r = entry.1.patch(p);
                let ghost ch_after = children@;
                assert(ch_after =~= ch_before.update(i as int, ch_after[i as int]));
                match r {
                    Err(e) => {
                        proof {
                            let x = children@;
                            assert(x.take(i as int) =~= ch_before.take(i as int));
                            assert(x.skip(i as int).drop_first() =~= x.skip(i + 1));
                            assert(x.skip(i + 1) =~= c0.skip(i + 1));
                            assert(x.skip(i as int)[0] == x[i as int]);
                            assert(items_rel(rest, pm_before, x.skip(i as int)));
                            assert(items_rel(c0, pm0, x));
                        }
                        return Err(e);
                    },
                    Ok(()) => {
                        assert forall|x: Seq<(String, BrPendingFs)>|
                            x.len() >= i + 1 && x.take(i + 1) == children@.take(i + 1) && items_rel(
                                c0.skip(i + 1),
                                pm@,
                                x.skip(i + 1),
                            ) implies items_rel(c0, pm0, x) by {
                            assert(x.take(i as int) =~= x.take(i + 1).take(i as int));
                            assert(ch_before.take(i as int) =~= children@.take(i + 1).take(i as int));
                            assert(x[i as int] == x.take(i + 1)[i as int]);
                            assert(x.skip(i as int).drop_first() =~= x.skip(i + 1));
                            assert(x.skip(i as int)[0] == x[i as int]);
                            assert(items_rel(rest, pm_before, x.skip(i as int)));
                        }
                    },
                }
            },
        }
        i = i + 1;
    }
    let ghost ch_end = children@;
    let ghost pm_end = pm@;
    children.append(&mut pm);
    proof {
        let x = children@;
        assert(x.take(i as int) =~= ch_end.take(i as int));
        assert(x.skip(i as int) =~= pm_end);
        assert(c0.skip(i as int) =~= Seq::<(String, BrPendingFs)>::empty());
    }
    Ok(())
}

impl BrPendingFs {
    /// Applies `patch` to this tree (see [`patch_rel`]); fails on the first
    /// conflict (see [`patch_err`]), after the changes made before it.
    pub fn patch(&mut self, patch: BrPendingFs) -> (res: Result<(), BrFsError>)
        ensures
            patch_rel(*old(self), patch, *final(self)),
            match patch_err(*old(self), patch) {
                None => res is Ok,
                Some((l, r)) => res matches Err(e) && conflict_of(e, l, r),
            },
        decreases node_size(patch), 1nat,
    {
        match patch {
            BrPendingFs::Root(pitems) => {
                if let BrPendingFs::Root(children) = self {
                    return patch_children(children, pitems);
                }
                let right = BrPendingFs::Root(pitems);
                Err(conflict(self, &right))
            },
            BrPendingFs::Folder(Some(pitems)) => {
                if let BrPendingFs::Folder(Some(children)) = self {
                    return patch_children(children, pitems);
                }
                let empty_folder = match self {
                    BrPendingFs::Folder(None) => true,
                    _ => false,
                };
                if empty_folder {
                    *self = BrPendingFs::Folder(Some(pitems));
                    return Ok(());
                }
                let right = BrPendingFs::Folder(Some(pitems));
                Err(conflict(self, &right))
            },
            BrPendingFs::Folder(None) => {
                let folder = match self {
                    BrPendingFs::Folder(_) => true,
                    _ => false,
                };
                if folder {
                    Ok(())
                } else {
                    Err(conflict(self, &BrPendingFs::Folder(None)))
                }
            },
            BrPendingFs::File(content) => {
                let file = match self {
                    BrPendingFs::File(_) => true,
                    _ => false,
                };
                if !file {
                    let right = BrPendingFs::File(content);
                    return Err(conflict(self, &right));
                }
                if let Some(data) = content {
                    *self = BrPendingFs::File(Some(data));
                }
                Ok(())
            },
        }
    }

    /// This tree with `patch` applied (see [`BrPendingFs::patch`]).
    pub fn with_patch(self, patch: BrPendingFs) -> (res: Result<BrPendingFs, BrFsError>)
        ensures
            match patch_err(self, patch) {
                None => res matches Ok(t) && patch_rel(self, patch, t),
                Some((l, r)) => res matches Err(e) && conflict_of(e, l, r),
            },
    {
        let mut t = self;
        match t.patch(patch) {
            Ok(()) => Ok(t),
            Err(e) => Err(e),
        }
    }
}

/// Whether no folder in a tree holds two entries of one name.
pub open spec fn names_unique(fs: BrPendingFs) -> bool
    decreases fs,
{
    match fs {
        BrPendingFs::Root(items) => items_unique(items@),
        BrPendingFs::Folder(Some(items)) => items_unique(items@),
        _ => true,
    }
}

/// Whether no two of `items` share a name and no folder among them holds
/// two entries of one name.
pub open spec fn items_unique(items: Seq<(String, BrPendingFs)>) -> bool
    decreases items,
{
    if items.len() == 0 {
        true
    } else {
        find_child(items.drop_first(), items[0].0@) is None && names_unique(items[0].1)
            && items_unique(items.drop_first())
    }
}

proof fn lemma_dedup_unique(items: Seq<(String, BrPendingFs)>)
    requires
        items_unique(items),
    ensures
        dedup_last(items) == items,
    decreases items.len(),
{
    if items.len() > 0 {
        lemma_dedup_unique(items.drop_first());
        assert(seq![items[0]] + items.drop_first() =~= items);
    }
}

proof fn lemma_items_unique_elem(items: Seq<(String, BrPendingFs)>, j: int)
    requires
        items_unique(items),
        0 <= j < items.len(),
    ensures
        names_unique(items[j].1),
    decreases items.len(),
{
    if j > 0 {
        lemma_items_unique_elem(items.drop_first(), j - 1);
        assert(items.drop_first()[j - 1] == items[j]);
    }
}

/// `find_child` gives the first position of a name.
proof fn lemma_find_child_at(items: Seq<(String, BrPendingFs)>, n: Seq<char>, f: int)
    requires
        0 <= f < items.len(),
        items[f].0@ == n,
        forall|m: int| 0 <= m < f ==> items[m].0@ != n,
    ensures
        find_child(items, n) == Some(f),
    decreases f,
{
    if f > 0 {
        assert forall|m: int| 0 <= m < f - 1 implies items.drop_first()[m].0@ != n by {
            assert(items.drop_first()[m] == items[m + 1]);
        }
        lemma_find_child_at(items.drop_first(), n, f - 1);
    }
}

proof fn lemma_find_child_remove(pm: Seq<(String, BrPendingFs)>, k0: int, n: Seq<char>, j: int)
    requires
        0 <= k0 < pm.len(),
        pm[k0].0@ != n,
        find_child(pm, n) == Some(j),
    ensures
        find_child(pm.remove(k0), n) == Some(if k0 < j { j - 1 } else { j }),
        pm.remove(k0)[if k0 < j { j - 1 } else { j }] == pm[j],
{
    lemma_find_child(pm, n);
    let r = pm.remove(k0);
    let f = if k0 < j { j - 1 } else { j };
    assert(r[f] == pm[j]);
    assert forall|m: int| 0 <= m < f implies r[m].0@ != n by {
        if m < k0 {
            assert(r[m] == pm[m]);
        } else {
            assert(r[m] == pm[m + 1]);
        }
    }
    lemma_find_child_at(r, n, f);
}

/// Where patched entries meet a patch entry named `n`: the first entry named
/// `n` after the patch is either that patch entry, appended, or the first
/// entry named `n` before it, patched by it without conflict.
proof fn lemma_items_rel_find(
    c: Seq<(String, BrPendingFs)>,
    pm: Seq<(String, BrPendingFs)>,
    c2: Seq<(String, BrPendingFs)>,
    n: Seq<char>,
    j: int,
)
    requires
        items_rel(c, pm, c2),
        items_err(c, pm) is None,
        find_child(pm, n) == Some(j),
    ensures
        find_child(c2, n) matches Some(k) && 0 <= k < c2.len() && (c2[k].1 == pm[j].1 || (find_child(
            c,
            n,
        ) == Some(k) && k < c.len() && patch_rel(c[k].1, pm[j].1, c2[k].1) && patch_err(c[k].1, pm[j].1) is None)),
    decreases c.len(),
{
    lemma_find_child(pm, n);
    if c.len() == 0 {
        lemma_find_child(c2, n);
    } else {
        let n0 = c[0].0@;
        lemma_find_child(pm, n0);
        match find_child(pm, n0) {
            None => {
                lemma_items_rel_find(c.drop_first(), pm, c2.drop_first(), n, j);
                let k1 = find_child(c2.drop_first(), n).unwrap();
                lemma_find_child(c2.drop_first(), n);
                assert(c2[k1 + 1] == c2.drop_first()[k1]);
                assert forall|m: int| 0 <= m < k1 + 1 implies c2[m].0@ != n by {
                    if m > 0 {
                        assert(c2[m] == c2.drop_first()[m - 1]);
                    }
                }
                lemma_find_child_at(c2, n, k1 + 1);
                if find_child(c.drop_first(), n) == Some(k1) {
                    lemma_find_child(c.drop_first(), n);
                    assert(c[k1 + 1] == c.drop_first()[k1]);
                    assert forall|m: int| 0 <= m < k1 + 1 implies c[m].0@ != n by {
                        if m > 0 {
                            assert(c[m] == c.drop_first()[m - 1]);
                        }
                    }
                    lemma_find_child_at(c, n, k1 + 1);
                }
            },
            Some(k0) => {
                if n0 == n {
                    lemma_find_child_at(c2, n, 0);
                    lemma_find_child_at(c, n, 0);
                } else {
                    lemma_find_child_remove(pm, k0, n, j);
                    let j1 = if k0 < j { j - 1 } else { j };
                    lemma_items_rel_find(c.drop_first(), pm.remove(k0), c2.drop_first(), n, j1);
                    let k1 = find_child(c2.drop_first(), n).unwrap();
                    lemma_find_child(c2.drop_first(), n);
                    assert(c2[k1 + 1] == c2.drop_first()[k1]);
                    assert forall|m: int| 0 <= m < k1 + 1 implies c2[m].0@ != n by {
                        if m > 0 {
                            assert(c2[m] == c2.drop_first()[m - 1]);
                        }
                    }
                    lemma_find_child_at(c2, n, k1 + 1);
                    if find_child(c.drop_first(), n) == Some(k1) {
                        lemma_find_child(c.drop_first(), n);
                        assert(c[k1 + 1] == c.drop_first()[k1]);
                        assert forall|m: int| 0 <= m < k1 + 1 implies c[m].0@ != n by {
                            if m > 0 {
                                assert(c[m] == c.drop_first()[m - 1]);
                            }
                        }
                        lemma_find_child_at(c, n, k1 + 1);
                    }
                }
            },
        }
    }
}

/// After a patch that meets no conflict, every file that the patch writes
/// reads back (by its path) as the patch wrote it. This holds where no folder
/// of the patch holds two entries of one name.
pub proof fn lemma_patch_then_cd(
    t: BrPendingFs,
    p: BrPendingFs,
    t2: BrPendingFs,
    segs: Seq<Seq<char>>,
)
    requires
        patch_rel(t, p, t2),
        patch_err(t, p) is None,
        names_unique(p),
        cd_spec(p, segs) matches Ok(BrPendingFs::File(Some(_))),
    ensures
        cd_spec(t2, segs) == cd_spec(p, segs),
    decreases segs.len(),
{
    if segs.len() > 0 {
        match p {
            BrPendingFs::Root(pi) => {
                if let BrPendingFs::Root(c) = t {
                    let c2 = t2->Root_0;
                    lemma_dedup_unique(pi@);
                    let j = find_child(pi@, segs[0]).unwrap();
                    lemma_find_child(pi@, segs[0]);
                    lemma_items_rel_find(c@, pi@, c2@, segs[0], j);
                    let k = find_child(c2@, segs[0]).unwrap();
                    if c2@[k].1 != pi@[j].1 {
                        lemma_items_unique_elem(pi@, j);
                        lemma_patch_then_cd(c@[k].1, pi@[j].1, c2@[k].1, segs.drop_first());
                    }
                }
            },
            BrPendingFs::Folder(Some(pi)) => {
                if let BrPendingFs::Folder(Some(c)) = t {
                    let c2 = t2->Folder_0.unwrap();
                    lemma_dedup_unique(pi@);
                    let j = find_child(pi@, segs[0]).unwrap();
                    lemma_find_child(pi@, segs[0]);
                    lemma_items_rel_find(c@, pi@, c2@, segs[0], j);
                    let k = find_child(c2@, segs[0]).unwrap();
                    if c2@[k].1 != pi@[j].1 {
                        lemma_items_unique_elem(pi@, j);
                        lemma_patch_then_cd(c@[k].1, pi@[j].1, c2@[k].1, segs.drop_first());
                    }
                }
            },
            _ => {},
        }
    }
}

/// Two trees with the same shape, names and contents.
pub open spec fn same_tree(x: BrPendingFs, y: BrPendingFs) -> bool
    decreases x,
{
    match (x, y) {
        (BrPendingFs::Root(a), BrPendingFs::Root(b)) => same_items(a@, b@),
        (BrPendingFs::Folder(Some(a)), BrPendingFs::Folder(Some(b))) => same_items(a@, b@),
        (BrPendingFs::Folder(None), BrPendingFs::Folder(None)) => true,
        (BrPendingFs::File(Some(c)), BrPendingFs::File(Some(d))) => c@ == d@,
        (BrPendingFs::File(None), BrPendingFs::File(None)) => true,
        _ => false,
    }
}

/// Two lists of entries with the same names and the same trees, in order.
pub open spec fn same_items(a: Seq<(String, BrPendingFs)>, b: Seq<(String, BrPendingFs)>) -> bool
    decreases a,
{
    &&& a.len() == b.len()
    &&& a.len() > 0 ==> (a[0].0@ == b[0].0@ && same_tree(a[0].1, b[0].1) && same_items(
        a.drop_first(),
        b.drop_first(),
    ))
}

proof fn lemma_same_tree_refl(x: BrPendingFs)
    ensures
        same_tree(x, x),
    decreases x,
{
    match x {
        BrPendingFs::Root(a) => lemma_same_items_refl(a@),
        BrPendingFs::Folder(Some(a)) => lemma_same_items_refl(a@),
        _ => {},
    }
}

proof fn lemma_same_items_refl(a: Seq<(String, BrPendingFs)>)
    ensures
        same_items(a, a),
    decreases a,
{
    if a.len() > 0 {
        lemma_same_tree_refl(a[0].1);
        lemma_same_items_refl(a.drop_first());
    }
}

/// A patch leaves one tree: any two trees that patching `t` with `p` may
/// leave (see [`patch_rel`]) are the same. So `with_patch` gives the tree that
/// `patch` leaves in place.
pub proof fn lemma_patch_deterministic(t: BrPendingFs, p: BrPendingFs, r1: BrPendingFs, r2: BrPendingFs)
    requires
        patch_rel(t, p, r1),
        patch_rel(t, p, r2),
    ensures
        same_tree(r1, r2),
    decreases node_size(p), 1nat, 0nat,
{
    match p {
        BrPendingFs::Root(pi) => match t {
            BrPendingFs::Root(c) => {
                lemma_dedup_size(pi@);
                let c1 = r1->Root_0;
                let c2 = r2->Root_0;
                lemma_items_deterministic(c@, dedup_last(pi@), c1@, c2@);
            },
            _ => lemma_same_tree_refl(r1),
        },
        BrPendingFs::Folder(Some(pi)) => match t {
            BrPendingFs::Folder(Some(c)) => {
                lemma_dedup_size(pi@);
                let c1 = r1->Folder_0.unwrap();
                let c2 = r2->Folder_0.unwrap();
                lemma_items_deterministic(c@, dedup_last(pi@), c1@, c2@);
            },
            _ => lemma_same_tree_refl(r1),
        },
        _ => lemma_same_tree_refl(r1),
    }
}

proof fn lemma_items_deterministic(
    c: Seq<(String, BrPendingFs)>,
    pm: Seq<(String, BrPendingFs)>,
    c1: Seq<(String, BrPendingFs)>,
    c2: Seq<(String, BrPendingFs)>,
)
    requires
        items_rel(c, pm, c1),
        items_rel(c, pm, c2),
    ensures
        same_items(c1, c2),
    decreases items_size(pm), 2nat, c.len(),
{
    if c.len() == 0 {
        lemma_same_items_refl(c1);
    } else {
        match find_child(pm, c[0].0@) {
            None => {
                lemma_same_tree_refl(c1[0].1);
                lemma_items_deterministic(c.drop_first(), pm, c1.drop_first(), c2.drop_first());
            },
            Some(k) => {
                lemma_find_child(pm, c[0].0@);
                lemma_items_size_elem(pm, k);
                lemma_patch_deterministic(c[0].1, pm[k].1, c1[0].1, c2[0].1);
                if patch_err(c[0].1, pm[k].1) is Some {
                    lemma_same_items_refl(c1.drop_first());
                } else {
                    lemma_items_deterministic(c.drop_first(), pm.remove(k), c1.drop_first(), c2.drop_first());
                }
            },
        }
    }
}

} // verus!
