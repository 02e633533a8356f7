//! Placing a file at a nested path of a folder listing, creating the folders
//! on the way where they are missing.
use vstd::prelude::*;

use crate::pending::{str_chars, string_eq_chars, BrPendingFs};

verus! {

/// The position of the first entry named `n` that is a folder.
pub open spec fn first_folder(items: Seq<(String, BrPendingFs)>, n: Seq<char>) -> Option<int>
    decreases items.len(),
{
    if items.len() == 0 {
        None
    } else if items[0].0@ == n && items[0].1 is Folder {
        Some(0)
    } else {
        match first_folder(items.drop_first(), n) {
            Some(k) => Some(k + 1),
            None => None,
        }
    }
}

proof fn lemma_first_folder(items: Seq<(String, BrPendingFs)>, n: Seq<char>)
    ensures
        first_folder(items, n) matches Some(k) ==> 0 <= k < items.len() && items[k].0@ == n
            && items[k].1 is Folder && forall|j: int|
            0 <= j < k ==> !(items[j].0@ == n && items[j].1 is Folder),
        first_folder(items, n) is None ==> forall|j: int|
            0 <= j < items.len() ==> !(items[j].0@ == n && items[j].1 is Folder),
    decreases items.len(),
{
    if items.len() > 0 {
        lemma_first_folder(items.drop_first(), n);
        assert forall|j: int| 0 < j < items.len() implies items[j] == items.drop_first()[j - 1] by {}
    }
}

/// Whether a file can be placed at the path `segs` of `items`: the path is
/// not empty, and each folder on the way that already exists (the first
/// folder of that name) has its entries listed rather than left unchanged.
pub open spec fn insert_ok(items: Seq<(String, BrPendingFs)>, segs: Seq<Seq<char>>) -> bool
    decreases segs.len(),
{
    if segs.len() == 0 {
        false
    } else if segs.len() == 1 {
        true
    } else {
        match first_folder(items, segs[0]) {
            Some(k) => items[k].1 matches BrPendingFs::Folder(Some(ch)) && insert_ok(ch@, segs.drop_first()),
            None => true,
        }
    }
}

/// `items2` is `items` with a file holding `content` placed at the path
/// `segs`: the file is appended to the innermost folder, each folder on the
/// way is the first folder of its name, and a missing one is appended,
/// empty, before the file goes into it.
pub open spec fn inserted(
    items: Seq<(String, BrPendingFs)>,
    segs: Seq<Seq<char>>,
    content: Seq<u8>,
    items2: Seq<(String, BrPendingFs)>,
) -> bool
    decreases segs.len(),
{
    if segs.len() <= 1 {
        &&& items2.len() == items.len() + 1
        &&& items2.drop_last() == items
        &&& items2.last().0@ == segs[0]
        &&& items2.last().1 matches BrPendingFs::File(Some(c)) && c@ == content
    } else {
        match first_folder(items, segs[0]) {
            Some(k) => {
                &&& items2.len() == items.len()
                &&& forall|j: int| 0 <= j < items.len() && j != k ==> items2[j] == items[j]
                &&& items2[k].0 == items[k].0
                &&& items[k].1 matches BrPendingFs::Folder(Some(ch))
                &&& items2[k].1 matches BrPendingFs::Folder(Some(ch2))
                &&& inserted(ch@, segs.drop_first(), content, ch2@)
            },
            None => {
                &&& items2.len() == items.len() + 1
                &&& items2.drop_last() == items
                &&& items2.last().0@ == segs[0]
                &&& items2.last().1 matches BrPendingFs::Folder(Some(ch2))
                &&& inserted(seq![], segs.drop_first(), content, ch2@)
            },
        }
    }
}

fn find_folder(items: &Vec<(String, BrPendingFs)>, name: &Vec<char>) -> (res: Option<usize>)
    ensures
        res matches Some(k) ==> k < items@.len() && first_folder(items@, name@) == Some(k as int),
        res is None ==> first_folder(items@, name@) is None,
{
    proof {
        lemma_first_folder(items@, name@);
    }
    let mut k: usize = 0;
    while k < items.len()
        invariant
            0 <= k <= items@.len(),
            forall|j: int| 0 <= j < k ==> !(items@[j].0@ == name@ && items@[j].1 is Folder),
            first_folder(items@, name@) matches Some(f) ==> k <= f && f < items@.len()
                && items@[f].0@ == name@ && items@[f].1 is Folder && forall|j: int|
                0 <= j < f ==> !(items@[j].0@ == name@ && items@[j].1 is Folder),
            first_folder(items@, name@) is None ==> forall|j: int|
                0 <= j < items@.len() ==> !(items@[j].0@ == name@ && items@[j].1 is Folder),
        decreases items@.len() - k,
    {
        let is_folder = match &items[k].1 {
            BrPendingFs::Folder(_) => true,
            _ => false,
        };
        if is_folder && string_eq_chars(&items[k].0, name) {
            return Some(k);
        }
        k = k + 1;
    }
    None
}

fn insert_path_from(
    tree: &mut Vec<(String, BrPendingFs)>,
    segments: &[&str],
    i: usize,
    content: Vec<u8>,
)
    requires
        i < segments@.len(),
        insert_ok(old(tree)@, segments@.skip(i as int).map_values(|s: &str| s@)),
    ensures
        inserted(old(tree)@, segments@.skip(i as int).map_values(|s: &str| s@), content@, final(tree)@),
    decreases segments@.len() - i,
{
    let ghost segs = segments@.skip(i as int).map_values(|s: &str| s@);
    let ghost t0 = tree@;
    assert(segs[0] == segments@[i as int]@);
    assert(segs.drop_first() =~= segments@.skip(i + 1).map_values(|s: &str| s@));
    let name = segments[i].to_owned();
    if i + 1 == segments.len() {
        tree.push((name, BrPendingFs::File(Some(content))));
        assert(tree@.drop_last() =~= t0);
        return;
    }
    let name_chars = str_chars(segments[i]);
    let idx = match find_folder(tree, &name_chars) {
        Some(k) => k,
        None => {
            tree.push((name, BrPendingFs::Folder(Some(Vec::new()))));
            assert(tree@.drop_last() =~= t0);
            tree.len() - 1
        },
    };
    let ghost t1 = tree@;
    proof {
        lemma_first_folder(t0, segs[0]);
        assert(t1[idx as int].1 matches BrPendingFs::Folder(Some(ch)) && insert_ok(ch@, segs.drop_first()));
    }
    let entry = &mut tree[idx];
    match &mut entry.1 {
        BrPendingFs::Folder(Some(children)) => {
            insert_path_from(children, segments, i + 1, content);
        },
        _ => {},
    }
    proof {
        assert(tree@ =~= t1.update(idx as int, tree@[idx as int]));
        if first_folder(t0, segs[0]) is None {
            assert(tree@.drop_last() =~= t0);
        }
    }
}

/// Places a file holding `content` at the nested path `segments` of `tree`
/// (see [`inserted`]), creating folders as needed and reusing existing ones;
/// the order of insertion is kept.
pub fn insert_path(tree: &mut Vec<(String, BrPendingFs)>, segments: &[&str], content: Vec<u8>)
    requires
        insert_ok(old(tree)@, segments@.map_values(|s: &str| s@)),
    ensures
        inserted(old(tree)@, segments@.map_values(|s: &str| s@), content@, final(tree)@),
{
    assert(segments@.skip(0) =~= segments@);
    insert_path_from(tree, segments, 0, content);
}

} // verus!
