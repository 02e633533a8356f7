//! A filesystem tree waiting to be written: folders and files with their
//! contents, where `None` marks an entry that is left as it is.
use vstd::prelude::*;

use crate::codec::string_push;
use crate::errors::BrFsError;

verus! {

/// The characters of `s`, in order.
pub fn str_chars(s: &str) -> (v: Vec<char>)
    ensures
        v@ == s@,
{
    let mut v: Vec<char> = Vec::new();
    for c in it: s.chars()
        invariant
            it.seq() == s@,
            v@ == it.seq().take(it.index()),
    {
        v.push(c);
        assert(v@ =~= it.seq().take(it.index() + 1));
    }
    v
}


/// A string holding the characters of `v`.
pub fn chars_to_string(v: &Vec<char>) -> (s: String)
    ensures
        s@ == v@,
{
    let mut s = String::new();
    let mut i: usize = 0;
    while i < v.len()
        invariant
            0 <= i <= v@.len(),
            s@ == v@.take(i as int),
        decreases v@.len() - i,
    {
        string_push(&mut s, v[i]);
        i = i + 1;
        assert(s@ =~= v@.take(i as int));
    }
    assert(v@.take(v@.len() as int) =~= v@);
    s
}

/// Whether `s` holds exactly the characters of `c`.
pub fn string_eq_chars(s: &String, c: &Vec<char>) -> (eq: bool)
    ensures
        eq == (s@ == c@),
{
    let sc = str_chars(s.as_str());
    if sc.len() != c.len() {
        return false;
    }
    let mut i: usize = 0;
    while i < sc.len()
        invariant
            0 <= i <= sc@.len(),
            sc@.len() == c@.len(),
            sc@ == s@,
            forall|k: int| 0 <= k < i ==> sc@[k] == c@[k],
        decreases sc@.len() - i,
    {
        if sc[i] != c[i] {
            return false;
        }
        i = i + 1;
    }
    assert(sc@ =~= c@);
    true
}

/// The number of characters before the first '/' (or the end).
pub open spec fn run_len(p: Seq<char>) -> nat
    decreases p.len(),
{
    if p.len() == 0 || p[0] == '/' {
        0
    } else {
        1 + run_len(p.drop_first())
    }
}

pub proof fn lemma_run_len_bound(p: Seq<char>)
    ensures
        run_len(p) <= p.len(),
        p.len() > 0 && p[0] != '/' ==> run_len(p) >= 1,
    decreases p.len(),
{
    if p.len() > 0 && p[0] != '/' {
        lemma_run_len_bound(p.drop_first());
    }
}

/// The non-empty pieces of a path between its '/' separators.
pub open spec fn path_segments(p: Seq<char>) -> Seq<Seq<char>>
    decreases p.len(),
{
    if p.len() == 0 {
        seq![]
    } else if p[0] == '/' {
        path_segments(p.drop_first())
    } else {
        proof {
            lemma_run_len_bound(p);
        }
        seq![p.take(run_len(p) as int)] + path_segments(p.skip(run_len(p) as int))
    }
}

proof fn lemma_run_len(q: Seq<char>, m: int)
    requires
        0 <= m <= q.len(),
        forall|k: int| 0 <= k < m ==> q[k] != '/',
        m == q.len() || q[m] == '/',
    ensures
        run_len(q) == m,
    decreases m,
{
    if m > 0 {
        lemma_run_len(q.drop_first(), m - 1);
    }
}

/// The characters of each piece.
pub open spec fn chars_view(v: Seq<Vec<char>>) -> Seq<Seq<char>> {
    v.map_values(|c: Vec<char>| c@)
}

/// The non-empty pieces of `p` between its '/' separators.
pub fn split_path(p: &Vec<char>) -> (segs: Vec<Vec<char>>)
    ensures
        chars_view(segs@) == path_segments(p@),
{
    let mut segs: Vec<Vec<char>> = Vec::new();
    let mut i: usize = 0;
    assert(p@.skip(0) =~= p@);
    assert(chars_view(segs@) + path_segments(p@.skip(0)) =~= path_segments(p@));
    while i < p.len()
        invariant
            0 <= i <= p@.len(),
            path_segments(p@) == chars_view(segs@) + path_segments(p@.skip(i as int)),
        decreases p@.len() - i,
    {
        if p[i] == '/' {
            assert(p@.skip(i as int).drop_first() =~= p@.skip(i + 1));
            i = i + 1;
        } else {
            let mut j: usize = i;
            let mut seg: Vec<char> = Vec::new();
            while j < p.len() && p[j] != '/'
                invariant
                    i <= j <= p@.len(),
                    forall|k: int| i <= k < j ==> p@[k] != '/',
                    seg@ == p@.subrange(i as int, j as int),
                decreases p@.len() - j,
            {
                seg.push(p[j]);
                j = j + 1;
                assert(seg@ =~= p@.subrange(i as int, j as int));
            }
            let ghost q = p@.skip(i as int);
            proof {
                lemma_run_len(q, j - i);
                assert(q.take(j - i) =~= seg@);
                assert(q.skip(j - i) =~= p@.skip(j as int));
            }
            let ghost old_segs = segs@;
            segs.push(seg);
            assert(chars_view(segs@) =~= chars_view(old_segs).push(q.take(j - i)));
            assert(chars_view(segs@) + path_segments(p@.skip(j as int)) =~= chars_view(old_segs)
                + path_segments(q));
            i = j;
        }
    }
    assert(p@.skip(p@.len() as int) =~= Seq::<char>::empty());
    assert(chars_view(segs@) + Seq::<Seq<char>>::empty() =~= chars_view(segs@));
    segs
}


/// Describes an entire filesystem tree that needs to be written.
/// Any `None` values indicate unchanged files or folders.
#[derive(Debug)]
pub enum BrPendingFs {
    Root(Vec<(String, BrPendingFs)>),
    Folder(Option<Vec<(String, BrPendingFs)>>),
    File(Option<Vec<u8>>),
}

/// Why a path could not be followed.
pub enum CdFailure {
    NotFound(Seq<char>),
    ExpectedDirectory(Seq<char>),
}

/// The position of the first entry named `name`.
pub open spec fn find_child(items: Seq<(String, BrPendingFs)>, name: Seq<char>) -> Option<int>
    decreases items.len(),
{
    if items.len() == 0 {
        None
    } else if items[0].0@ == name {
        Some(0)
    } else {
        match find_child(items.drop_first(), name) {
            Some(k) => Some(k + 1),
            None => None,
        }
    }
}

pub proof fn lemma_find_child(items: Seq<(String, BrPendingFs)>, name: Seq<char>)
    ensures
        find_child(items, name) matches Some(k) ==> 0 <= k < items.len() && items[k].0@ == name
            && forall|j: int| 0 <= j < k ==> items[j].0@ != name,
        find_child(items, name) is None ==> forall|j: int|
            0 <= j < items.len() ==> items[j].0@ != name,
    decreases items.len(),
{
    if items.len() > 0 {
        lemma_find_child(items.drop_first(), name);
        if items[0].0@ != name {
            assert forall|j: int| 0 < j < items.len() implies items[j] == items.drop_first()[j - 1] by {}
        }
    }
}

/// The node that the path pieces `segs` lead to from `fs`: at each step the
/// first child with the next name; a file or an empty placeholder folder
/// has no children.
pub open spec fn cd_spec(fs: BrPendingFs, segs: Seq<Seq<char>>) -> Result<BrPendingFs, CdFailure>
    decreases segs.len(),
{
    if segs.len() == 0 {
        Ok(fs)
    } else {
        match fs {
            BrPendingFs::File(_) => if segs.len() > 1 {
                Err(CdFailure::ExpectedDirectory(segs[0]))
            } else {
                Err(CdFailure::NotFound(segs[0]))
            },
            BrPendingFs::Folder(None) => Err(CdFailure::NotFound(segs[0])),
            BrPendingFs::Root(items) => match find_child(items@, segs[0]) {
                None => Err(CdFailure::NotFound(segs[0])),
                Some(k) => cd_spec(items@[k].1, segs.drop_first()),
            },
            BrPendingFs::Folder(Some(items)) => match find_child(items@, segs[0]) {
                None => Err(CdFailure::NotFound(segs[0])),
                Some(k) => cd_spec(items@[k].1, segs.drop_first()),
            },
        }
    }
}

/// The error that a failure to follow a path is reported as.
pub open spec fn cd_error_matches(e: BrFsError, f: CdFailure) -> bool {
    match f {
        CdFailure::NotFound(n) => e matches BrFsError::NotFound(s) && s@ == n,
        CdFailure::ExpectedDirectory(n) => e matches BrFsError::ExpectedDirectory(s) && s@ == n,
    }
}

pub(crate) fn find_child_index(items: &Vec<(String, BrPendingFs)>, name: &Vec<char>) -> (res: Option<usize>)
    ensures
        res matches Some(k) ==> k < items@.len() && find_child(items@, name@) == Some(k as int),
        res is None ==> find_child(items@, name@) is None,
{
    proof {
        lemma_find_child(items@, name@);
    }
    let mut k: usize = 0;
    while k < items.len()
        invariant
            0 <= k <= items@.len(),
            forall|j: int| 0 <= j < k ==> items@[j].0@ != name@,
            find_child(items@, name@) matches Some(f) ==> k <= f && f < items@.len()
                && items@[f].0@ == name@ && forall|j: int| 0 <= j < f ==> items@[j].0@ != name@,
            find_child(items@, name@) is None ==> forall|j: int|
                0 <= j < items@.len() ==> items@[j].0@ != name@,
        decreases items@.len() - k,
    {
        if string_eq_chars(&items[k].0, name) {
            return Some(k);
        }
        k = k + 1;
    }
    None
}

/// `new` is `old` with the node that the path pieces `segs` lead to replaced
/// by `t`, and everything else as it was.
pub open spec fn replaced_at(
    old: BrPendingFs,
    new: BrPendingFs,
    segs: Seq<Seq<char>>,
    t: BrPendingFs,
) -> bool
    decreases segs.len(),
{
    if segs.len() == 0 {
        new == t
    } else {
        match (old, new) {
            (BrPendingFs::Root(a), BrPendingFs::Root(b)) => match find_child(a@, segs[0]) {
                Some(k) => a@.len() == b@.len() && (forall|j: int|
                    0 <= j < a@.len() && j != k ==> b@[j] == a@[j]) && b@[k].0 == a@[k].0
                    && replaced_at(a@[k].1, b@[k].1, segs.drop_first(), t),
                None => false,
            },
            (BrPendingFs::Folder(Some(a)), BrPendingFs::Folder(Some(b))) => match find_child(
                a@,
                segs[0],
            ) {
                Some(k) => a@.len() == b@.len() && (forall|j: int|
                    0 <= j < a@.len() && j != k ==> b@[j] == a@[j]) && b@[k].0 == a@[k].0
                    && replaced_at(a@[k].1, b@[k].1, segs.drop_first(), t),
                None => false,
            },
            _ => false,
        }
    }
}

/// A write through the node that `cd_mut` hands out is what `cd` then finds
/// at that path: where `new` is `old` with the node at `segs` replaced by
/// `t` (see [`replaced_at`]), following `segs` in `new` leads to `t`.
pub proof fn lemma_cd_after_cd_mut(
    old: BrPendingFs,
    new: BrPendingFs,
    segs: Seq<Seq<char>>,
    t: BrPendingFs,
)
    requires
        replaced_at(old, new, segs, t),
    ensures
        cd_spec(new, segs) == Ok::<BrPendingFs, CdFailure>(t),
    decreases segs.len(),
{
    if segs.len() > 0 {
        match (old, new) {
            (BrPendingFs::Root(a), BrPendingFs::Root(b)) => {
                let k = find_child(a@, segs[0]).unwrap();
                lemma_find_child_same_names(a@, b@, segs[0], k);
                lemma_cd_after_cd_mut(a@[k].1, b@[k].1, segs.drop_first(), t);
            },
            (BrPendingFs::Folder(Some(a)), BrPendingFs::Folder(Some(b))) => {
                let k = find_child(a@, segs[0]).unwrap();
                lemma_find_child_same_names(a@, b@, segs[0], k);
                lemma_cd_after_cd_mut(a@[k].1, b@[k].1, segs.drop_first(), t);
            },
            _ => {},
        }
    }
}

/// Entries with the same names are searched alike.
proof fn lemma_find_child_same_names(
    a: Seq<(String, BrPendingFs)>,
    b: Seq<(String, BrPendingFs)>,
    name: Seq<char>,
    k: int,
)
    requires
        find_child(a, name) == Some(k),
        a.len() == b.len(),
        forall|j: int| 0 <= j < a.len() && j != k ==> b[j] == a[j],
        0 <= k < a.len() ==> b[k].0 == a[k].0,
    ensures
        find_child(b, name) == Some(k),
{
    lemma_find_child(a, name);
    lemma_find_child(b, name);
    assert(b[k].0@ == name);
    if let Some(k2) = find_child(b, name) {
        if k2 < k {
            assert(b[k2] == a[k2]);
        }
    }
}

fn cd_mut_from<'a>(fs: &'a mut BrPendingFs, segs: &Vec<Vec<char>>, i: usize) -> (res: Option<
    &'a mut BrPendingFs,
>)
    requires
        i <= segs@.len(),
        cd_spec(*old(fs), chars_view(segs@).skip(i as int)) is Ok,
    ensures
        res matches Some(r) && cd_spec(*old(fs), chars_view(segs@).skip(i as int)) == Ok::<
            BrPendingFs,
            CdFailure,
        >(*r) && replaced_at(*old(fs), *final(fs), chars_view(segs@).skip(i as int), *final(r)),
    decreases segs@.len() - i,
{
    let ghost sv = chars_view(segs@);
    let ghost rest = sv.skip(i as int);
    if i >= segs.len() {
        assert(rest =~= Seq::<Seq<char>>::empty());
        return Some(fs);
    }
    assert(rest[0] == segs@[i as int]@);
    assert(rest.drop_first() =~= sv.skip(i + 1));
    match fs {
        BrPendingFs::Root(items) => {
            match find_child_index(items, &segs[i]) {
                Some(k) => {
                    let entry = &mut items[k];
                    let child = &mut entry.1;
                    cd_mut_from(child, segs, i + 1)
                },
                None => None,
            }
        },
        BrPendingFs::Folder(Some(items)) => {
            match find_child_index(items, &segs[i]) {
                Some(k) => {
                    let entry = &mut items[k];
                    let child = &mut entry.1;
                    cd_mut_from(child, segs, i + 1)
                },
                None => None,
            }
        },
        _ => None,
    }
}

impl BrPendingFs {
    /// Navigate a pending filesystem to a specific path (see
    /// [`BrPendingFs::cd`]) and hand out the node there for changing; the rest
    /// of the tree stays as it is.
    pub fn cd_mut(&mut self, path: &str) -> (res: Result<&mut BrPendingFs, BrFsError>)
        ensures
            match cd_spec(*old(self), path_segments(path@)) {
                Ok(t) => res matches Ok(r) && *r == t && replaced_at(
                    *old(self),
                    *final(self),
                    path_segments(path@),
                    *final(r),
                ),
                Err(f) => res matches Err(e) && cd_error_matches(e, f) && *final(self) == *old(self),
            },
    {
        if let Err(e) = self.cd(path) {
            return Err(e);
        }
        let segs = split_path(&str_chars(path));
        assert(chars_view(segs@).skip(0) =~= chars_view(segs@));
        match cd_mut_from(self, &segs, 0) {
            Some(r) => Ok(r),
            None => Err(BrFsError::NotFound(String::new())),
        }
    }

    pub fn is_root(&self) -> (b: bool)
        ensures
            b == (self is Root),
    {
        match self {
            BrPendingFs::Root(_) => true,
            _ => false,
        }
    }

    /// Get the children of the root if this is a root.
    pub fn to_root(self) -> (res: Option<Vec<(String, BrPendingFs)>>)
        ensures
            match self {
                BrPendingFs::Root(items) => res == Some(items),
                _ => res is None,
            },
    {
        match self {
            BrPendingFs::Root(items) => Some(items),
            _ => None,
        }
    }

    /// Get the children of this folder if this is a folder.
    pub fn to_folder(self) -> (res: Option<Vec<(String, BrPendingFs)>>)
        ensures
            match self {
                BrPendingFs::Folder(items) => res == items,
                _ => res is None,
            },
    {
        match self {
            BrPendingFs::Folder(items) => items,
            _ => None,
        }
    }

    /// Get the file content of this pending FS if this is a file.
    pub fn to_file(self) -> (res: Option<Vec<u8>>)
        ensures
            match self {
                BrPendingFs::File(content) => res == content,
                _ => res is None,
            },
    {
        match self {
            BrPendingFs::File(content) => content,
            _ => None,
        }
    }

    /// Navigate a pending filesystem to a specific path: the pieces of the
    /// path between '/' separators, empty ones skipped, name one child after
    /// the other.
    pub fn cd(&self, path: &str) -> (res: Result<&BrPendingFs, BrFsError>)
        ensures
            match cd_spec(*self, path_segments(path@)) {
                Ok(t) => res matches Ok(r) && *r == t,
                Err(f) => res matches Err(e) && cd_error_matches(e, f),
            },
    {
        let segs = split_path(&str_chars(path));
        let ghost sv = chars_view(segs@);
        let mut curr: &BrPendingFs = self;
        let mut i: usize = 0;
        assert(sv.skip(0) =~= sv);
        while i < segs.len()
            invariant
                0 <= i <= segs@.len(),
                sv == chars_view(segs@),
                sv == path_segments(path@),
                cd_spec(*self, sv) == cd_spec(*curr, sv.skip(i as int)),
            decreases segs@.len() - i,
        {
            let ghost rest = sv.skip(i as int);
            assert(rest[0] == segs@[i as int]@);
            assert(rest.drop_first() =~= sv.skip(i + 1));
            let children = match curr {
                BrPendingFs::Root(items) => items,
                BrPendingFs::Folder(Some(items)) => items,
                BrPendingFs::Folder(None) => {
                    return Err(BrFsError::NotFound(chars_to_string(&segs[i])));
                },
                BrPendingFs::File(_) => {
                    if i + 1 < segs.len() {
                        return Err(BrFsError::ExpectedDirectory(chars_to_string(&segs[i])));
                    } else {
                        return Err(BrFsError::NotFound(chars_to_string(&segs[i])));
                    }
                },
            };
            match find_child_index(children, &segs[i]) {
                Some(k) => {
                    proof {
                        assert(rest[0] == segs@[i as int]@);
                        assert(find_child(children@, segs@[i as int]@) is Some);
                        assert(find_child(children@, rest[0]) == Some(k as int));
                        assert(cd_spec(*curr, rest) == cd_spec(children@[k as int].1, rest.drop_first()));
                    }
                    curr = &children[k].1;
                },
                None => {
                    return Err(BrFsError::NotFound(chars_to_string(&segs[i])));
                },
            }
            i = i + 1;
        }
        assert(sv.skip(i as int) =~= Seq::<Seq<char>>::empty());
        Ok(curr)
    }

    /// Navigate a pending filesystem to a specific path, giving up the rest of
    /// the tree (see [`BrPendingFs::cd`]).
    pub fn cd_owned(self, path: &str) -> (res: Result<BrPendingFs, BrFsError>)
        ensures
            match cd_spec(self, path_segments(path@)) {
                Ok(t) => res matches Ok(r) && r == t,
                Err(f) => res matches Err(e) && cd_error_matches(e, f),
            },
    {
        let segs = split_path(&str_chars(path));
        let ghost sv = chars_view(segs@);
        let ghost orig = self;
        let mut curr: BrPendingFs = self;
        let mut i: usize = 0;
        assert(sv.skip(0) =~= sv);
        while i < segs.len()
            invariant
                0 <= i <= segs@.len(),
                sv == chars_view(segs@),
                sv == path_segments(path@),
                orig == self,
                cd_spec(orig, sv) == cd_spec(curr, sv.skip(i as int)),
            decreases segs@.len() - i,
        {
            let ghost rest = sv.skip(i as int);
            assert(rest[0] == segs@[i as int]@);
            assert(rest.drop_first() =~= sv.skip(i + 1));
            let ghost old_curr = curr;
            let mut children = match curr {
                BrPendingFs::Root(items) => items,
                BrPendingFs::Folder(Some(items)) => items,
                BrPendingFs::Folder(None) => {
                    return Err(BrFsError::NotFound(chars_to_string(&segs[i])));
                },
                BrPendingFs::File(_) => {
                    if i + 1 < segs.len() {
                        return Err(BrFsError::ExpectedDirectory(chars_to_string(&segs[i])));
                    } else {
                        return Err(BrFsError::NotFound(chars_to_string(&segs[i])));
                    }
                },
            };
            let ghost old_children = children@;
            match find_child_index(&children, &segs[i]) {
                Some(k) => {
                    proof {
                        assert(find_child(old_children, rest[0]) == Some(k as int));
                        assert(cd_spec(old_curr, rest) == cd_spec(old_children[k as int].1, rest.drop_first()));
                    }
                    let (_, next) = children.swap_remove(k);
                    curr = next;
                },
                None => {
                    return Err(BrFsError::NotFound(chars_to_string(&segs[i])));
                },
            }
            i = i + 1;
        }
        assert(sv.skip(i as int) =~= Seq::<Seq<char>>::empty());
        Ok(curr)
    }
}

} // verus!
