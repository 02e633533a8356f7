//! The layout of a world or prefab that has not been saved yet: which file
//! goes into which folder of the pending tree. The contents of the files are
//! given as bytes.
use vstd::prelude::*;

use crate::insert::insert_path;
use crate::pending::{chars_to_string, str_chars, BrPendingFs};
use crate::tree_view::{
    child_named, lemma_child_named_at, lemma_child_named_push, lemma_insert_keeps_child, node_at, insert_view, items_view, lemma_insert_listed, lemma_inserted_view, lemma_items_view,
    lemma_items_view_push, lemma_listed_insert_ok, lemma_vlisted, node_listed, tree_view,
    vlisted, TreeView,
};

verus! {

pub open spec fn file_v(name: Seq<char>, c: Seq<u8>) -> (Seq<char>, TreeView) {
    (name, TreeView::File(Some(c)))
}

pub open spec fn dir_v(name: Seq<char>, items: Seq<(Seq<char>, TreeView)>) -> (Seq<char>, TreeView) {
    (name, TreeView::Folder(Some(items)))
}

/// Chunk files, each named by its chunk with `.mps` after it.
pub open spec fn chunk_files(cs: Seq<(String, Vec<u8>)>) -> Seq<(Seq<char>, TreeView)> {
    cs.map_values(|c: (String, Vec<u8>)| file_v(c.0@ + ".mps"@, c.1@))
}

/// The files of one brick grid.
pub struct GridFiles {
    /// `ChunkIndex.mps`
    pub chunk_index: Vec<u8>,
    /// `Chunks/<chunk>.mps`
    pub chunks: Vec<(String, Vec<u8>)>,
    /// `Components/<chunk>.mps`
    pub components: Vec<(String, Vec<u8>)>,
    /// `Wires/<chunk>.mps`
    pub wires: Vec<(String, Vec<u8>)>,
}

/// A grid's folder: its chunk index, then each chunk folder that is not empty.
pub open spec fn grid_items(g: GridFiles) -> Seq<(Seq<char>, TreeView)> {
    let a = seq![file_v("ChunkIndex.mps"@, g.chunk_index@)];
    let b = if g.chunks@.len() == 0 {
        a
    } else {
        a.push(dir_v("Chunks"@, chunk_files(g.chunks@)))
    };
    let c = if g.components@.len() == 0 {
        b
    } else {
        b.push(dir_v("Components"@, chunk_files(g.components@)))
    };
    if g.wires@.len() == 0 {
        c
    } else {
        c.push(dir_v("Wires"@, chunk_files(g.wires@)))
    }
}

pub open spec fn grids_items(gs: Seq<(String, GridFiles)>) -> Seq<(Seq<char>, TreeView)> {
    gs.map_values(|g: (String, GridFiles)| dir_v(g.0@, grid_items(g.1)))
}

/// The files of one world.
pub struct WorldFiles {
    pub global_data_schema: Vec<u8>,
    pub global_data: Vec<u8>,
    pub owners_schema: Vec<u8>,
    pub owners: Vec<u8>,
    pub chunk_index_shared_schema: Vec<u8>,
    pub chunks_shared_schema: Vec<u8>,
    pub wires_shared_schema: Vec<u8>,
    pub components_shared_schema: Vec<u8>,
    /// Each grid under its id.
    pub grids: Vec<(String, GridFiles)>,
    pub entity_chunk_index_schema: Vec<u8>,
    pub entity_chunk_index: Vec<u8>,
    pub entity_chunks_schema: Vec<u8>,
    /// `Entities/Chunks/<chunk>.mps`
    pub entity_chunks: Vec<(String, Vec<u8>)>,
}

pub open spec fn bricks_items(w: WorldFiles) -> Seq<(Seq<char>, TreeView)> {
    seq![
        file_v("ChunkIndexShared.schema"@, w.chunk_index_shared_schema@),
        file_v("ChunksShared.schema"@, w.chunks_shared_schema@),
        file_v("WiresShared.schema"@, w.wires_shared_schema@),
        file_v("ComponentsShared.schema"@, w.components_shared_schema@),
        dir_v("Grids"@, grids_items(w.grids@)),
    ]
}

/// The entities folder; its `Chunks` folder only where there are chunks.
pub open spec fn entities_items(w: WorldFiles) -> Seq<(Seq<char>, TreeView)> {
    let a = seq![
        file_v("ChunkIndex.schema"@, w.entity_chunk_index_schema@),
        file_v("ChunkIndex.mps"@, w.entity_chunk_index@),
        file_v("ChunksShared.schema"@, w.entity_chunks_schema@),
    ];
    if w.entity_chunks@.len() == 0 {
        a
    } else {
        a.push(dir_v("Chunks"@, chunk_files(w.entity_chunks@)))
    }
}

/// A world's folder: its global data and owners, then `Bricks` and `Entities`.
pub open spec fn world_items(w: WorldFiles) -> Seq<(Seq<char>, TreeView)> {
    seq![
        file_v("GlobalData.schema"@, w.global_data_schema@),
        file_v("GlobalData.mps"@, w.global_data@),
        file_v("Owners.schema"@, w.owners_schema@),
        file_v("Owners.mps"@, w.owners@),
        dir_v("Bricks"@, bricks_items(w)),
        dir_v("Entities"@, entities_items(w)),
    ]
}

pub open spec fn worlds_items(ws: Seq<(String, WorldFiles)>) -> Seq<(Seq<char>, TreeView)> {
    ws.map_values(|w: (String, WorldFiles)| dir_v(w.0@, world_items(w.1)))
}

/// The files of the `Meta` folder.
pub struct MetaFiles {
    /// `Bundle.json`
    pub bundle: Vec<u8>,
    /// `Prefab.json`, where this is a prefab.
    pub prefab: Option<Vec<u8>>,
    /// `World.json`, written where this is not a prefab.
    pub world: Vec<u8>,
    /// `Screenshot.jpg`, left unchanged where it is `None`.
    pub screenshot: Option<Vec<u8>>,
    /// `Thumbnail.png`, left unchanged where it is `None`.
    pub thumbnail: Option<Vec<u8>>,
}

pub open spec fn opt_file(c: Option<Vec<u8>>) -> TreeView {
    TreeView::File(
        match c {
            Some(c) => Some(c@),
            None => None,
        },
    )
}

/// The bundle, then for a prefab its own file and thumbnail, and for a world
/// the screenshot, the thumbnail and `World.json`.
pub open spec fn meta_items(m: MetaFiles) -> Seq<(Seq<char>, TreeView)> {
    match m.prefab {
        Some(p) => seq![
            file_v("Bundle.json"@, m.bundle@),
            file_v("Prefab.json"@, p@),
            ("Thumbnail.png"@, opt_file(m.thumbnail)),
        ],
        None => seq![
            file_v("Bundle.json"@, m.bundle@),
            ("Screenshot.jpg"@, opt_file(m.screenshot)),
            ("Thumbnail.png"@, opt_file(m.thumbnail)),
            file_v("World.json"@, m.world@),
        ],
    }
}

/// The pieces of a path between its slashes, empty ones included.
pub open spec fn split_slash(p: Seq<char>) -> Seq<Seq<char>>
    decreases p.len(),
{
    if p.len() == 0 {
        seq![seq![]]
    } else {
        let r = split_slash(p.drop_last());
        if p.last() == '/' {
            r.push(seq![])
        } else {
            r.update(r.len() - 1, r.last().push(p.last()))
        }
    }
}

pub proof fn lemma_split_slash_len(p: Seq<char>)
    ensures
        split_slash(p).len() >= 1,
    decreases p.len(),
{
    if p.len() > 0 {
        lemma_split_slash_len(p.drop_last());
    }
}

/// Each embedded file placed at its path, in order.
pub open spec fn with_prefabs(v: Seq<(Seq<char>, TreeView)>, ps: Seq<(String, Vec<u8>)>) -> Seq<
    (Seq<char>, TreeView),
>
    decreases ps.len(),
{
    if ps.len() == 0 {
        v
    } else {
        insert_view(with_prefabs(v, ps.drop_last()), split_slash(ps.last().0@), ps.last().1@)
    }
}

/// Everything that goes into a new world or prefab file.
pub struct UnsavedFiles {
    pub meta: MetaFiles,
    /// Each world under its id.
    pub worlds: Vec<(String, WorldFiles)>,
    /// Embedded files under their slash-separated paths from the root.
    pub prefabs: Vec<(String, Vec<u8>)>,
}

/// The root of a new file: `Meta`, then `World`, then the embedded files.
pub open spec fn unsaved_tree(fs: UnsavedFiles) -> TreeView {
    TreeView::Root(
        with_prefabs(
            seq![dir_v("Meta"@, meta_items(fs.meta)), dir_v("World"@, worlds_items(fs.worlds@))],
            fs.prefabs@,
        ),
    )
}

fn file_entry(name: &str, c: Vec<u8>) -> (e: (String, BrPendingFs))
    ensures
        e.0@ == name@,
        tree_view(e.1) == TreeView::File(Some(c@)),
{
    (name.to_owned(), BrPendingFs::File(Some(c)))
}

fn opt_entry(name: &str, c: Option<Vec<u8>>) -> (e: (String, BrPendingFs))
    ensures
        e.0@ == name@,
        tree_view(e.1) == opt_file(c),
{
    (name.to_owned(), BrPendingFs::File(c))
}

fn dir_entry(name: &str, items: Vec<(String, BrPendingFs)>) -> (e: (String, BrPendingFs))
    ensures
        e.0@ == name@,
        tree_view(e.1) == TreeView::Folder(Some(items_view(items@))),
{
    (name.to_owned(), BrPendingFs::Folder(Some(items)))
}

fn push_entry(dir: &mut Vec<(String, BrPendingFs)>, e: (String, BrPendingFs))
    ensures
        final(dir)@ == old(dir)@.push(e),
        items_view(final(dir)@) == items_view(old(dir)@).push((e.0@, tree_view(e.1))),
{
    proof {
        lemma_items_view_push(dir@, e);
    }
    dir.push(e);
}

fn chunk_dir(cs: Vec<(String, Vec<u8>)>) -> (v: Vec<(String, BrPendingFs)>)
    ensures
        items_view(v@) == chunk_files(cs@),
{
    let ghost c0 = cs@;
    let mut rest = cs;
    let mut out: Vec<(String, BrPendingFs)> = Vec::new();
    assert(c0.take(0) =~= seq![]);
    assert(chunk_files(seq![]) =~= seq![]);
    while rest.len() > 0
        invariant
            c0.len() == out@.len() + rest@.len(),
            rest@ == c0.skip(out@.len() as int),
            items_view(out@) == chunk_files(c0.take(out@.len() as int)),
        decreases rest@.len(),
    {
        let ghost n = out@.len() as int;
        let (mut name, bytes) = rest.remove(0);
        name.append(".mps");
        push_entry(&mut out, (name, BrPendingFs::File(Some(bytes))));
        proof {
            assert(c0.take(n + 1) =~= c0.take(n).push(c0[n]));
            assert(chunk_files(c0.take(n + 1)) =~= chunk_files(c0.take(n)).push(
                file_v(c0[n].0@ + ".mps"@, c0[n].1@),
            ));
            assert(rest@ =~= c0.skip(n + 1));
        }
    }
    assert(c0.take(c0.len() as int) =~= c0);
    out
}

impl GridFiles {
    /// A grid's folder (see [`grid_items`]).
    pub fn to_pending(self) -> (r: BrPendingFs)
        ensures
            tree_view(r) == TreeView::Folder(Some(grid_items(self))),
    {
        let ghost g = self;
        let GridFiles { chunk_index, chunks, components, wires } = self;
        let mut dir: Vec<(String, BrPendingFs)> = Vec::new();
        assert(items_view(dir@) =~= seq![]);
        push_entry(&mut dir, file_entry("ChunkIndex.mps", chunk_index));
        let ghost a = seq![file_v("ChunkIndex.mps"@, g.chunk_index@)];
        assert(items_view(dir@) =~= a);
        if chunks.len() > 0 {
            let c = chunk_dir(chunks);
            push_entry(&mut dir, dir_entry("Chunks", c));
        }
        if components.len() > 0 {
            let c = chunk_dir(components);
            push_entry(&mut dir, dir_entry("Components", c));
        }
        if wires.len() > 0 {
            let c = chunk_dir(wires);
            push_entry(&mut dir, dir_entry("Wires", c));
        }
        BrPendingFs::Folder(Some(dir))
    }
}

fn grids_dir(gs: Vec<(String, GridFiles)>) -> (v: Vec<(String, BrPendingFs)>)
    ensures
        items_view(v@) == grids_items(gs@),
{
    let ghost g0 = gs@;
    let mut rest = gs;
    let mut out: Vec<(String, BrPendingFs)> = Vec::new();
    assert(g0.take(0) =~= seq![]);
    assert(grids_items(seq![]) =~= seq![]);
    while rest.len() > 0
        invariant
            g0.len() == out@.len() + rest@.len(),
            rest@ == g0.skip(out@.len() as int),
            items_view(out@) == grids_items(g0.take(out@.len() as int)),
        decreases rest@.len(),
    {
        let ghost n = out@.len() as int;
        let (name, grid) = rest.remove(0);
        push_entry(&mut out, (name, grid.to_pending()));
        proof {
            assert(g0.take(n + 1) =~= g0.take(n).push(g0[n]));
            assert(grids_items(g0.take(n + 1)) =~= grids_items(g0.take(n)).push(
                dir_v(g0[n].0@, grid_items(g0[n].1)),
            ));
            assert(rest@ =~= g0.skip(n + 1));
        }
    }
    assert(g0.take(g0.len() as int) =~= g0);
    out
}

fn world_dir(w: WorldFiles) -> (v: Vec<(String, BrPendingFs)>)
    ensures
        items_view(v@) == world_items(w),
{
    let ghost w0 = w;
    let WorldFiles {
        global_data_schema,
        global_data,
        owners_schema,
        owners,
        chunk_index_shared_schema,
        chunks_shared_schema,
        wires_shared_schema,
        components_shared_schema,
        grids,
        entity_chunk_index_schema,
        entity_chunk_index,
        entity_chunks_schema,
        entity_chunks,
    } = w;
    let mut bricks: Vec<(String, BrPendingFs)> = Vec::new();
    assert(items_view(bricks@) =~= seq![]);
    push_entry(&mut bricks, file_entry("ChunkIndexShared.schema", chunk_index_shared_schema));
    push_entry(&mut bricks, file_entry("ChunksShared.schema", chunks_shared_schema));
    push_entry(&mut bricks, file_entry("WiresShared.schema", wires_shared_schema));
    push_entry(&mut bricks, file_entry("ComponentsShared.schema", components_shared_schema));
    push_entry(&mut bricks, dir_entry("Grids", grids_dir(grids)));
    assert(items_view(bricks@) =~= bricks_items(w0));

    let mut entities: Vec<(String, BrPendingFs)> = Vec::new();
    assert(items_view(entities@) =~= seq![]);
    push_entry(&mut entities, file_entry("ChunkIndex.schema", entity_chunk_index_schema));
    push_entry(&mut entities, file_entry("ChunkIndex.mps", entity_chunk_index));
    push_entry(&mut entities, file_entry("ChunksShared.schema", entity_chunks_schema));
    let ghost a = items_view(entities@);
    if entity_chunks.len() > 0 {
        push_entry(&mut entities, dir_entry("Chunks", chunk_dir(entity_chunks)));
    }
    assert(items_view(entities@) =~= entities_items(w0));

    let mut dir: Vec<(String, BrPendingFs)> = Vec::new();
    assert(items_view(dir@) =~= seq![]);
    push_entry(&mut dir, file_entry("GlobalData.schema", global_data_schema));
    push_entry(&mut dir, file_entry("GlobalData.mps", global_data));
    push_entry(&mut dir, file_entry("Owners.schema", owners_schema));
    push_entry(&mut dir, file_entry("Owners.mps", owners));
    push_entry(&mut dir, dir_entry("Bricks", bricks));
    push_entry(&mut dir, dir_entry("Entities", entities));
    assert(items_view(dir@) =~= world_items(w0));
    dir
}

fn worlds_dir(ws: Vec<(String, WorldFiles)>) -> (v: Vec<(String, BrPendingFs)>)
    ensures
        items_view(v@) == worlds_items(ws@),
{
    let ghost w0 = ws@;
    let mut rest = ws;
    let mut out: Vec<(String, BrPendingFs)> = Vec::new();
    assert(w0.take(0) =~= seq![]);
    assert(worlds_items(seq![]) =~= seq![]);
    while rest.len() > 0
        invariant
            w0.len() == out@.len() + rest@.len(),
            rest@ == w0.skip(out@.len() as int),
            items_view(out@) == worlds_items(w0.take(out@.len() as int)),
        decreases rest@.len(),
    {
        let ghost n = out@.len() as int;
        let (name, world) = rest.remove(0);
        push_entry(&mut out, dir_entry(name.as_str(), world_dir(world)));
        proof {
            assert(w0.take(n + 1) =~= w0.take(n).push(w0[n]));
            assert(worlds_items(w0.take(n + 1)) =~= worlds_items(w0.take(n)).push(
                dir_v(w0[n].0@, world_items(w0[n].1)),
            ));
            assert(rest@ =~= w0.skip(n + 1));
        }
    }
    assert(w0.take(w0.len() as int) =~= w0);
    out
}

fn meta_dir(m: MetaFiles) -> (v: Vec<(String, BrPendingFs)>)
    ensures
        items_view(v@) == meta_items(m),
{
    let ghost m0 = m;
    let MetaFiles { bundle, prefab, world, screenshot, thumbnail } = m;
    let mut dir: Vec<(String, BrPendingFs)> = Vec::new();
    assert(items_view(dir@) =~= seq![]);
    push_entry(&mut dir, file_entry("Bundle.json", bundle));
    match prefab {
        Some(p) => {
            push_entry(&mut dir, file_entry("Prefab.json", p));
            push_entry(&mut dir, opt_entry("Thumbnail.png", thumbnail));
        },
        None => {
            push_entry(&mut dir, opt_entry("Screenshot.jpg", screenshot));
            push_entry(&mut dir, opt_entry("Thumbnail.png", thumbnail));
            push_entry(&mut dir, file_entry("World.json", world));
        },
    }
    assert(items_view(dir@) =~= meta_items(m0));
    dir
}

/// The pieces of `p` between its slashes (see [`split_slash`]).
pub fn split_on_slash(p: &str) -> (segs: Vec<String>)
    ensures
        segs@.map_values(|s: String| s@) == split_slash(p@),
{
    let cs = str_chars(p);
    let mut done: Vec<String> = Vec::new();
    let mut cur: Vec<char> = Vec::new();
    let mut i: usize = 0;
    assert(cs@.take(0) =~= seq![]);
    while i < cs.len()
        invariant
            i <= cs@.len(),
            cs@ == p@,
            split_slash(cs@.take(i as int)) == done@.map_values(|s: String| s@).push(cur@),
        decreases cs@.len() - i,
    {
        let ghost before = cs@.take(i as int);
        assert(cs@.take(i + 1).drop_last() =~= before);
        if cs[i] == '/' {
            let s = chars_to_string(&cur);
            done.push(s);
            cur = Vec::new();
            assert(done@.map_values(|s: String| s@).push(cur@) =~= split_slash(before).push(seq![]));
        } else {
            let ghost r = split_slash(before);
            cur.push(cs[i]);
            assert(done@.map_values(|s: String| s@).push(cur@) =~= r.update(r.len() - 1, r.last().push(cs@[i as int])));
        }
        i = i + 1;
    }
    let s = chars_to_string(&cur);
    done.push(s);
    assert(cs@.take(cs@.len() as int) =~= cs@);
    assert(done@.map_values(|s: String| s@) =~= split_slash(p@));
    done
}

fn str_refs(v: &Vec<String>) -> (r: Vec<&str>)
    ensures
        r@.map_values(|s: &str| s@) == v@.map_values(|s: String| s@),
{
    let mut r: Vec<&str> = Vec::new();
    let mut i: usize = 0;
    while i < v.len()
        invariant
            i <= v@.len(),
            r@.len() == i,
            forall|j: int| 0 <= j < i ==> #[trigger] r@[j]@ == v@[j]@,
        decreases v@.len() - i,
    {
        let x = v[i].as_str();
        r.push(x);
        i = i + 1;
    }
    assert(r@.map_values(|s: &str| s@) =~= v@.map_values(|s: String| s@));
    r
}

proof fn lemma_push_listed(v: Seq<(Seq<char>, TreeView)>, e: (Seq<char>, TreeView))
    requires
        vlisted(v),
        node_listed(e.1),
    ensures
        vlisted(v.push(e)),
{
    lemma_vlisted(v);
    lemma_vlisted(v.push(e));
    assert forall|j: int| 0 <= j < v.push(e).len() implies #[trigger] node_listed(v.push(e)[j].1) by {
        if j < v.len() {
            assert(v.push(e)[j] == v[j]);
        }
    }
}

proof fn lemma_files_listed(cs: Seq<(String, Vec<u8>)>)
    ensures
        vlisted(chunk_files(cs)),
{
    lemma_vlisted(chunk_files(cs));
    assert forall|j: int| 0 <= j < chunk_files(cs).len() implies #[trigger] node_listed(
        chunk_files(cs)[j].1,
    ) by {}
}

proof fn lemma_grid_listed(g: GridFiles)
    ensures
        vlisted(grid_items(g)),
{
    let a = seq![file_v("ChunkIndex.mps"@, g.chunk_index@)];
    lemma_vlisted(a);
    assert(node_listed(a[0].1));
    lemma_files_listed(g.chunks@);
    lemma_files_listed(g.components@);
    lemma_files_listed(g.wires@);
    let b = if g.chunks@.len() == 0 {
        a
    } else {
        lemma_push_listed(a, dir_v("Chunks"@, chunk_files(g.chunks@)));
        a.push(dir_v("Chunks"@, chunk_files(g.chunks@)))
    };
    let c = if g.components@.len() == 0 {
        b
    } else {
        lemma_push_listed(b, dir_v("Components"@, chunk_files(g.components@)));
        b.push(dir_v("Components"@, chunk_files(g.components@)))
    };
    if g.wires@.len() > 0 {
        lemma_push_listed(c, dir_v("Wires"@, chunk_files(g.wires@)));
    }
}

proof fn lemma_world_listed(w: WorldFiles)
    ensures
        vlisted(world_items(w)),
{
    let gs = grids_items(w.grids@);
    lemma_vlisted(gs);
    assert forall|j: int| 0 <= j < gs.len() implies #[trigger] node_listed(gs[j].1) by {
        lemma_grid_listed(w.grids@[j].1);
    }
    let bs = bricks_items(w);
    lemma_vlisted(bs);
    assert forall|j: int| 0 <= j < bs.len() implies #[trigger] node_listed(bs[j].1) by {}
    let a = seq![
        file_v("ChunkIndex.schema"@, w.entity_chunk_index_schema@),
        file_v("ChunkIndex.mps"@, w.entity_chunk_index@),
        file_v("ChunksShared.schema"@, w.entity_chunks_schema@),
    ];
    lemma_vlisted(a);
    assert forall|j: int| 0 <= j < a.len() implies #[trigger] node_listed(a[j].1) by {}
    if w.entity_chunks@.len() > 0 {
        lemma_files_listed(w.entity_chunks@);
        lemma_push_listed(a, dir_v("Chunks"@, chunk_files(w.entity_chunks@)));
    }
    let ws = world_items(w);
    lemma_vlisted(ws);
    assert forall|j: int| 0 <= j < ws.len() implies #[trigger] node_listed(ws[j].1) by {}
}

proof fn lemma_worlds_listed(ws: Seq<(String, WorldFiles)>)
    ensures
        vlisted(worlds_items(ws)),
{
    lemma_vlisted(worlds_items(ws));
    assert forall|j: int| 0 <= j < worlds_items(ws).len() implies #[trigger] node_listed(
        worlds_items(ws)[j].1,
    ) by {
        lemma_world_listed(ws[j].1);
    }
}

proof fn lemma_meta_listed(m: MetaFiles)
    ensures
        vlisted(meta_items(m)),
{
    lemma_vlisted(meta_items(m));
    assert forall|j: int| 0 <= j < meta_items(m).len() implies #[trigger] node_listed(
        meta_items(m)[j].1,
    ) by {}
}

impl BrPendingFs {
    /// The pending tree of a new world or prefab file (see [`unsaved_tree`]):
    /// `Meta` and `World`, then each embedded file placed at its path in turn.
    pub fn from_unsaved(fs: UnsavedFiles) -> (r: BrPendingFs)
        ensures
            tree_view(r) == unsaved_tree(fs),
    {
        let ghost f0 = fs;
        let UnsavedFiles { meta, worlds, prefabs } = fs;
        let mut root: Vec<(String, BrPendingFs)> = Vec::new();
        assert(items_view(root@) =~= seq![]);
        push_entry(&mut root, dir_entry("Meta", meta_dir(meta)));
        push_entry(&mut root, dir_entry("World", worlds_dir(worlds)));
        let ghost base = seq![
            dir_v("Meta"@, meta_items(f0.meta)),
            dir_v("World"@, worlds_items(f0.worlds@)),
        ];
        proof {
            assert(items_view(root@) =~= base);
            lemma_meta_listed(f0.meta);
            lemma_worlds_listed(f0.worlds@);
            lemma_vlisted(base);
            assert forall|j: int| 0 <= j < base.len() implies #[trigger] node_listed(base[j].1) by {}
            assert(f0.prefabs@.take(0) =~= seq![]);
        }
        let ghost p0 = f0.prefabs@;
        assert(p0.len() == prefabs.len());
        let mut rest = prefabs;
        let mut n: usize = 0;
        while rest.len() > 0
            invariant
                n + rest@.len() == p0.len(),
                p0.len() <= usize::MAX,
                rest@ == p0.skip(n as int),
                items_view(root@) == with_prefabs(base, p0.take(n as int)),
                vlisted(items_view(root@)),
            decreases rest@.len(),
        {
            let (path, bytes) = rest.remove(0);
            let segs = split_on_slash(path.as_str());
            let refs = str_refs(&segs);
            let ghost t0 = root@;
            let ghost sv = refs@.map_values(|s: &str| s@);
            proof {
                assert(path == p0[n as int].0);
                lemma_split_slash_len(path@);
                assert(sv.len() > 0);
                lemma_listed_insert_ok(t0, sv);
            }
            insert_path(&mut root, refs.as_slice(), bytes);
            proof {
                lemma_inserted_view(t0, sv, p0[n as int].1@, root@);
                lemma_insert_listed(items_view(t0), sv, p0[n as int].1@);
                assert(p0.take(n + 1).drop_last() =~= p0.take(n as int));
                assert(rest@ =~= p0.skip(n + 1));
            }
            n = n + 1;
        }
        proof {
            assert(p0.take(n as int) =~= p0);
        }
        BrPendingFs::Root(root)
    }
}

/// Whether no embedded file is placed inside the top folder named `n`:
/// none of their paths goes through a folder of that name.
pub open spec fn prefabs_avoid(ps: Seq<(String, Vec<u8>)>, n: Seq<char>) -> bool {
    forall|k: int|
        0 <= k < ps.len() ==> (split_slash(#[trigger] ps[k].0@).len() > 1 ==> split_slash(ps[k].0@)[0] != n)
}

proof fn lemma_with_prefabs_keeps(v: Seq<(Seq<char>, TreeView)>, ps: Seq<(String, Vec<u8>)>, n: Seq<char>)
    requires
        child_named(v, n) is Some,
        prefabs_avoid(ps, n),
    ensures
        child_named(with_prefabs(v, ps), n) == child_named(v, n),
    decreases ps.len(),
{
    if ps.len() > 0 {
        let pd = ps.drop_last();
        assert forall|k: int| 0 <= k < pd.len() implies (split_slash(#[trigger] pd[k].0@).len() > 1 ==> split_slash(
            pd[k].0@,
        )[0] != n) by {
            assert(pd[k] == ps[k]);
        }
        lemma_with_prefabs_keeps(v, pd, n);
        let last = ps[ps.len() - 1];
        assert(ps.last() == last);
        lemma_split_slash_len(last.0@);
        lemma_insert_keeps_child(with_prefabs(v, pd), split_slash(last.0@), last.1@, n);
    }
}

proof fn lemma_world_child(ws: Seq<(String, WorldFiles)>, i: int)
    requires
        0 <= i < ws.len(),
        forall|j: int| 0 <= j < i ==> ws[j].0@ != ws[i].0@,
    ensures
        child_named(worlds_items(ws), ws[i].0@) == Some(TreeView::Folder(Some(world_items(ws[i].1)))),
    decreases i,
{
    if i > 0 {
        let wt = ws.drop_first();
        assert forall|j: int| 0 <= j < i - 1 implies (#[trigger] wt[j]).0@ != wt[i - 1].0@ by {
            assert(wt[j] == ws[j + 1]);
        }
        lemma_world_child(wt, i - 1);
        assert(worlds_items(ws).drop_first() =~= worlds_items(wt));
        assert(ws[0].0@ != ws[i].0@);
    }
}

proof fn lemma_node_at_step(t: TreeView, name: Seq<char>, c: TreeView, p: Seq<Seq<char>>)
    requires
        match t {
            TreeView::Root(ch) => child_named(ch, name) == Some(c),
            TreeView::Folder(Some(ch)) => child_named(ch, name) == Some(c),
            _ => false,
        },
    ensures
        node_at(t, seq![name] + p) == node_at(c, p),
{
    assert((seq![name] + p)[0] == name);
    assert((seq![name] + p).drop_first() =~= p);
}

proof fn lemma_node_at_file(t: TreeView, name: Seq<char>, c: TreeView)
    requires
        match t {
            TreeView::Root(ch) => child_named(ch, name) == Some(c),
            TreeView::Folder(Some(ch)) => child_named(ch, name) == Some(c),
            _ => false,
        },
    ensures
        node_at(t, seq![name]) == Some(c),
{
    lemma_node_at_step(t, name, c, seq![]);
    assert(seq![name] + Seq::<Seq<char>>::empty() =~= seq![name]);
}

/// The world folder `World/<id>` of the layout holds that world's files.
proof fn lemma_world_folder(fs: UnsavedFiles, i: int, p: Seq<Seq<char>>)
    requires
        0 <= i < fs.worlds@.len(),
        forall|j: int| 0 <= j < i ==> fs.worlds@[j].0@ != fs.worlds@[i].0@,
        prefabs_avoid(fs.prefabs@, "World"@),
    ensures
        node_at(unsaved_tree(fs), seq!["World"@, fs.worlds@[i].0@] + p) == node_at(
            TreeView::Folder(Some(world_items(fs.worlds@[i].1))),
            p,
        ),
{
    reveal_strlit("Meta");
    reveal_strlit("World");
    let base = seq![dir_v("Meta"@, meta_items(fs.meta)), dir_v("World"@, worlds_items(fs.worlds@))];
    assert("Meta"@.len() == 4 && "World"@.len() == 5);
    lemma_child_named_at(base, 1, "World"@);
    lemma_with_prefabs_keeps(base, fs.prefabs@, "World"@);
    lemma_world_child(fs.worlds@, i);
    let id = fs.worlds@[i].0@;
    let wv = TreeView::Folder(Some(worlds_items(fs.worlds@)));
    lemma_node_at_step(unsaved_tree(fs), "World"@, wv, seq![id] + p);
    lemma_node_at_step(wv, id, TreeView::Folder(Some(world_items(fs.worlds@[i].1))), p);
    assert(seq!["World"@, id] + p =~= seq!["World"@] + (seq![id] + p));
}

/// Each file of a world lands in the world's folder `World/<id>` of a new
/// file under its own name, holding its own bytes: the global data in
/// `GlobalData.mps` and its schema in `GlobalData.schema`, the owners in
/// `Owners.mps` and their schema in `Owners.schema`. (Where two worlds
/// share an id the first one is found; an embedded file placed inside the
/// `World` folder may add files to it, so those are left out.)
pub proof fn lemma_world_files_placed(fs: UnsavedFiles, i: int)
    requires
        0 <= i < fs.worlds@.len(),
        forall|j: int| 0 <= j < i ==> fs.worlds@[j].0@ != fs.worlds@[i].0@,
        prefabs_avoid(fs.prefabs@, "World"@),
    ensures
        node_at(unsaved_tree(fs), seq!["World"@, fs.worlds@[i].0@, "GlobalData.mps"@]) == Some(
            TreeView::File(Some(fs.worlds@[i].1.global_data@)),
        ),
        node_at(unsaved_tree(fs), seq!["World"@, fs.worlds@[i].0@, "GlobalData.schema"@]) == Some(
            TreeView::File(Some(fs.worlds@[i].1.global_data_schema@)),
        ),
        node_at(unsaved_tree(fs), seq!["World"@, fs.worlds@[i].0@, "Owners.mps"@]) == Some(
            TreeView::File(Some(fs.worlds@[i].1.owners@)),
        ),
        node_at(unsaved_tree(fs), seq!["World"@, fs.worlds@[i].0@, "Owners.schema"@]) == Some(
            TreeView::File(Some(fs.worlds@[i].1.owners_schema@)),
        ),
{
    let w = fs.worlds@[i].1;
    let id = fs.worlds@[i].0@;
    let wf = TreeView::Folder(Some(world_items(w)));
    reveal_strlit("GlobalData.schema");
    reveal_strlit("GlobalData.mps");
    reveal_strlit("Owners.schema");
    reveal_strlit("Owners.mps");
    reveal_strlit("Bricks");
    reveal_strlit("Entities");
    let items = world_items(w);
    assert("GlobalData.schema"@.len() == 17 && "GlobalData.mps"@.len() == 14 && "Owners.schema"@.len() == 13
        && "Owners.mps"@.len() == 10);
    lemma_child_named_at(items, 0, "GlobalData.schema"@);
    lemma_child_named_at(items, 1, "GlobalData.mps"@);
    lemma_child_named_at(items, 2, "Owners.schema"@);
    lemma_child_named_at(items, 3, "Owners.mps"@);
    lemma_world_folder(fs, i, seq!["GlobalData.mps"@]);
    lemma_node_at_file(wf, "GlobalData.mps"@, TreeView::File(Some(w.global_data@)));
    lemma_world_folder(fs, i, seq!["GlobalData.schema"@]);
    lemma_node_at_file(wf, "GlobalData.schema"@, TreeView::File(Some(w.global_data_schema@)));
    lemma_world_folder(fs, i, seq!["Owners.mps"@]);
    lemma_node_at_file(wf, "Owners.mps"@, TreeView::File(Some(w.owners@)));
    lemma_world_folder(fs, i, seq!["Owners.schema"@]);
    lemma_node_at_file(wf, "Owners.schema"@, TreeView::File(Some(w.owners_schema@)));
    assert(seq!["World"@, id] + seq!["GlobalData.mps"@] =~= seq!["World"@, id, "GlobalData.mps"@]);
    assert(seq!["World"@, id] + seq!["GlobalData.schema"@] =~= seq!["World"@, id, "GlobalData.schema"@]);
    assert(seq!["World"@, id] + seq!["Owners.mps"@] =~= seq!["World"@, id, "Owners.mps"@]);
    assert(seq!["World"@, id] + seq!["Owners.schema"@] =~= seq!["World"@, id, "Owners.schema"@]);
}

/// A file of a folder of the world folder `World/<id>`, reached through
/// that folder.
proof fn lemma_world_sub_file(fs: UnsavedFiles, i: int, dir: Seq<char>, k: int, sub: Seq<(Seq<char>, TreeView)>, name: Seq<char>, j: int)
    requires
        0 <= i < fs.worlds@.len(),
        forall|m: int| 0 <= m < i ==> fs.worlds@[m].0@ != fs.worlds@[i].0@,
        prefabs_avoid(fs.prefabs@, "World"@),
        0 <= k < world_items(fs.worlds@[i].1).len(),
        world_items(fs.worlds@[i].1)[k] == dir_v(dir, sub),
        forall|m: int| 0 <= m < k ==> (#[trigger] world_items(fs.worlds@[i].1)[m]).0 != dir,
        0 <= j < sub.len(),
        sub[j].0 == name,
        forall|m: int| 0 <= m < j ==> (#[trigger] sub[m]).0 != name,
    ensures
        node_at(unsaved_tree(fs), seq!["World"@, fs.worlds@[i].0@, dir, name]) == Some(sub[j].1),
{
    let items = world_items(fs.worlds@[i].1);
    let wf = TreeView::Folder(Some(items));
    let df = TreeView::Folder(Some(sub));
    lemma_child_named_at(items, k, dir);
    lemma_child_named_at(sub, j, name);
    lemma_world_folder(fs, i, seq![dir, name]);
    lemma_node_at_step(wf, dir, df, seq![name]);
    lemma_node_at_file(df, name, sub[j].1);
    assert(seq!["World"@, fs.worlds@[i].0@] + seq![dir, name] =~= seq!["World"@, fs.worlds@[i].0@, dir, name]);
    assert(seq![dir] + seq![name] =~= seq![dir, name]);
}

/// The shared schemas of a world's bricks land in `World/<id>/Bricks`, and
/// the entity files in `World/<id>/Entities`, each under its own name and
/// holding its own bytes (under the same conditions as
/// [`lemma_world_files_placed`]).
pub proof fn lemma_world_schemas_placed(fs: UnsavedFiles, i: int)
    requires
        0 <= i < fs.worlds@.len(),
        forall|j: int| 0 <= j < i ==> fs.worlds@[j].0@ != fs.worlds@[i].0@,
        prefabs_avoid(fs.prefabs@, "World"@),
    ensures
        node_at(unsaved_tree(fs), seq!["World"@, fs.worlds@[i].0@, "Bricks"@, "ChunkIndexShared.schema"@]) == Some(
            TreeView::File(Some(fs.worlds@[i].1.chunk_index_shared_schema@)),
        ),
        node_at(unsaved_tree(fs), seq!["World"@, fs.worlds@[i].0@, "Bricks"@, "ChunksShared.schema"@]) == Some(
            TreeView::File(Some(fs.worlds@[i].1.chunks_shared_schema@)),
        ),
        node_at(unsaved_tree(fs), seq!["World"@, fs.worlds@[i].0@, "Bricks"@, "WiresShared.schema"@]) == Some(
            TreeView::File(Some(fs.worlds@[i].1.wires_shared_schema@)),
        ),
        node_at(unsaved_tree(fs), seq!["World"@, fs.worlds@[i].0@, "Bricks"@, "ComponentsShared.schema"@]) == Some(
            TreeView::File(Some(fs.worlds@[i].1.components_shared_schema@)),
        ),
        node_at(unsaved_tree(fs), seq!["World"@, fs.worlds@[i].0@, "Entities"@, "ChunkIndex.schema"@]) == Some(
            TreeView::File(Some(fs.worlds@[i].1.entity_chunk_index_schema@)),
        ),
        node_at(unsaved_tree(fs), seq!["World"@, fs.worlds@[i].0@, "Entities"@, "ChunkIndex.mps"@]) == Some(
            TreeView::File(Some(fs.worlds@[i].1.entity_chunk_index@)),
        ),
        node_at(unsaved_tree(fs), seq!["World"@, fs.worlds@[i].0@, "Entities"@, "ChunksShared.schema"@]) == Some(
            TreeView::File(Some(fs.worlds@[i].1.entity_chunks_schema@)),
        ),
{
    let w = fs.worlds@[i].1;
    let items = world_items(w);
    reveal_strlit("GlobalData.schema");
    reveal_strlit("GlobalData.mps");
    reveal_strlit("Owners.schema");
    reveal_strlit("Owners.mps");
    reveal_strlit("Bricks");
    reveal_strlit("Entities");
    reveal_strlit("ChunkIndexShared.schema");
    reveal_strlit("ChunksShared.schema");
    reveal_strlit("WiresShared.schema");
    reveal_strlit("ComponentsShared.schema");
    reveal_strlit("Grids");
    reveal_strlit("ChunkIndex.schema");
    reveal_strlit("ChunkIndex.mps");
    assert("GlobalData.schema"@.len() == 17 && "GlobalData.mps"@.len() == 14 && "Owners.schema"@.len() == 13
        && "Owners.mps"@.len() == 10 && "Bricks"@.len() == 6 && "Entities"@.len() == 8);
    assert("ChunkIndexShared.schema"@.len() == 23 && "ChunksShared.schema"@.len() == 19
        && "WiresShared.schema"@.len() == 18 && "ComponentsShared.schema"@.len() == 23 && "Grids"@.len() == 5);
    assert("ChunkIndexShared.schema"@[1] == 'h' && "ComponentsShared.schema"@[1] == 'o');
    assert("ChunkIndex.schema"@.len() == 17 && "ChunkIndex.mps"@.len() == 14);
    let b = bricks_items(w);
    let e = entities_items(w);
    assert(forall|m: int| 0 <= m < 4 ==> (#[trigger] items[m]).0 != "Bricks"@);
    assert(forall|m: int| 0 <= m < 5 ==> (#[trigger] items[m]).0 != "Entities"@);
    lemma_world_sub_file(fs, i, "Bricks"@, 4, b, "ChunkIndexShared.schema"@, 0);
    lemma_world_sub_file(fs, i, "Bricks"@, 4, b, "ChunksShared.schema"@, 1);
    lemma_world_sub_file(fs, i, "Bricks"@, 4, b, "WiresShared.schema"@, 2);
    lemma_world_sub_file(fs, i, "Bricks"@, 4, b, "ComponentsShared.schema"@, 3);
    assert(e[0] == file_v("ChunkIndex.schema"@, w.entity_chunk_index_schema@));
    assert(e[1] == file_v("ChunkIndex.mps"@, w.entity_chunk_index@));
    assert(e[2] == file_v("ChunksShared.schema"@, w.entity_chunks_schema@));
    lemma_world_sub_file(fs, i, "Entities"@, 5, e, "ChunkIndex.schema"@, 0);
    lemma_world_sub_file(fs, i, "Entities"@, 5, e, "ChunkIndex.mps"@, 1);
    lemma_world_sub_file(fs, i, "Entities"@, 5, e, "ChunksShared.schema"@, 2);
}

/// The `Meta` folder of a new file holds the bundle in `Bundle.json`, and
/// for a prefab its own file in `Prefab.json`, for a world `World.json`
/// (where no embedded file is placed inside `Meta`).
pub proof fn lemma_meta_files_placed(fs: UnsavedFiles)
    requires
        prefabs_avoid(fs.prefabs@, "Meta"@),
    ensures
        node_at(unsaved_tree(fs), seq!["Meta"@, "Bundle.json"@]) == Some(TreeView::File(Some(fs.meta.bundle@))),
        fs.meta.prefab matches Some(pf) ==> node_at(unsaved_tree(fs), seq!["Meta"@, "Prefab.json"@]) == Some(
            TreeView::File(Some(pf@)),
        ),
        fs.meta.prefab is None ==> node_at(unsaved_tree(fs), seq!["Meta"@, "World.json"@]) == Some(
            TreeView::File(Some(fs.meta.world@)),
        ),
{
    reveal_strlit("Bundle.json");
    reveal_strlit("Prefab.json");
    reveal_strlit("World.json");
    reveal_strlit("Screenshot.jpg");
    reveal_strlit("Thumbnail.png");
    assert("Bundle.json"@.len() == 11 && "Prefab.json"@.len() == 11 && "World.json"@.len() == 10
        && "Screenshot.jpg"@.len() == 14 && "Thumbnail.png"@.len() == 13);
    assert("Bundle.json"@[0] == 'B' && "Prefab.json"@[0] == 'P');
    let mi = meta_items(fs.meta);
    let base = seq![dir_v("Meta"@, mi), dir_v("World"@, worlds_items(fs.worlds@))];
    let mf = TreeView::Folder(Some(mi));
    lemma_child_named_at(base, 0, "Meta"@);
    lemma_with_prefabs_keeps(base, fs.prefabs@, "Meta"@);
    lemma_child_named_at(mi, 0, "Bundle.json"@);
    lemma_node_at_step(unsaved_tree(fs), "Meta"@, mf, seq!["Bundle.json"@]);
    lemma_node_at_file(mf, "Bundle.json"@, TreeView::File(Some(fs.meta.bundle@)));
    assert(seq!["Meta"@] + seq!["Bundle.json"@] =~= seq!["Meta"@, "Bundle.json"@]);
    match fs.meta.prefab {
        Some(pf) => {
            lemma_child_named_at(mi, 1, "Prefab.json"@);
            lemma_node_at_step(unsaved_tree(fs), "Meta"@, mf, seq!["Prefab.json"@]);
            lemma_node_at_file(mf, "Prefab.json"@, TreeView::File(Some(pf@)));
            assert(seq!["Meta"@] + seq!["Prefab.json"@] =~= seq!["Meta"@, "Prefab.json"@]);
        },
        None => {
            lemma_child_named_at(mi, 3, "World.json"@);
            lemma_node_at_step(unsaved_tree(fs), "Meta"@, mf, seq!["World.json"@]);
            lemma_node_at_file(mf, "World.json"@, TreeView::File(Some(fs.meta.world@)));
            assert(seq!["Meta"@] + seq!["World.json"@] =~= seq!["Meta"@, "World.json"@]);
        },
    }
}

proof fn lemma_grid_child(gs: Seq<(String, GridFiles)>, i: int)
    requires
        0 <= i < gs.len(),
        forall|j: int| 0 <= j < i ==> gs[j].0@ != gs[i].0@,
    ensures
        child_named(grids_items(gs), gs[i].0@) == Some(TreeView::Folder(Some(grid_items(gs[i].1)))),
    decreases i,
{
    if i > 0 {
        let gt = gs.drop_first();
        assert forall|j: int| 0 <= j < i - 1 implies (#[trigger] gt[j]).0@ != gt[i - 1].0@ by {
            assert(gt[j] == gs[j + 1]);
        }
        lemma_grid_child(gt, i - 1);
        assert(grids_items(gs).drop_first() =~= grids_items(gt));
        assert(gs[0].0@ != gs[i].0@);
    }
}

/// The files of a brick grid land in `World/<id>/Bricks/Grids/<grid>`:
/// its chunk index in `ChunkIndex.mps`, and its brick, component and wire
/// chunks, where it has any, in the folders `Chunks`, `Components` and
/// `Wires`, each chunk under its name with `.mps` after it (under the
/// conditions of [`lemma_world_files_placed`], and where no earlier grid of
/// the world shares the grid's id).
pub proof fn lemma_grid_files_placed(fs: UnsavedFiles, i: int, gi: int)
    requires
        0 <= i < fs.worlds@.len(),
        forall|j: int| 0 <= j < i ==> fs.worlds@[j].0@ != fs.worlds@[i].0@,
        prefabs_avoid(fs.prefabs@, "World"@),
        0 <= gi < fs.worlds@[i].1.grids@.len(),
        forall|j: int| 0 <= j < gi ==> fs.worlds@[i].1.grids@[j].0@ != fs.worlds@[i].1.grids@[gi].0@,
    ensures
        ({
            let id = fs.worlds@[i].0@;
            let g = fs.worlds@[i].1.grids@[gi];
            let at = seq!["World"@, id, "Bricks"@, "Grids"@, g.0@];
            &&& node_at(unsaved_tree(fs), at.push("ChunkIndex.mps"@)) == Some(TreeView::File(Some(g.1.chunk_index@)))
            &&& g.1.chunks@.len() > 0 ==> node_at(unsaved_tree(fs), at.push("Chunks"@)) == Some(
                TreeView::Folder(Some(chunk_files(g.1.chunks@))),
            )
            &&& g.1.components@.len() > 0 ==> node_at(unsaved_tree(fs), at.push("Components"@)) == Some(
                TreeView::Folder(Some(chunk_files(g.1.components@))),
            )
            &&& g.1.wires@.len() > 0 ==> node_at(unsaved_tree(fs), at.push("Wires"@)) == Some(
                TreeView::Folder(Some(chunk_files(g.1.wires@))),
            )
        }),
{
    let w = fs.worlds@[i].1;
    let id = fs.worlds@[i].0@;
    let g = w.grids@[gi];
    let items = world_items(w);
    let b = bricks_items(w);
    let gv = grid_items(g.1);
    reveal_strlit("GlobalData.schema");
    reveal_strlit("GlobalData.mps");
    reveal_strlit("Owners.schema");
    reveal_strlit("Owners.mps");
    reveal_strlit("Bricks");
    reveal_strlit("ChunkIndexShared.schema");
    reveal_strlit("ChunksShared.schema");
    reveal_strlit("WiresShared.schema");
    reveal_strlit("ComponentsShared.schema");
    reveal_strlit("Grids");
    reveal_strlit("ChunkIndex.mps");
    reveal_strlit("Chunks");
    reveal_strlit("Components");
    reveal_strlit("Wires");
    assert("GlobalData.schema"@.len() == 17 && "GlobalData.mps"@.len() == 14 && "Owners.schema"@.len() == 13
        && "Owners.mps"@.len() == 10 && "Bricks"@.len() == 6);
    assert("ChunkIndexShared.schema"@.len() == 23 && "ChunksShared.schema"@.len() == 19
        && "WiresShared.schema"@.len() == 18 && "ComponentsShared.schema"@.len() == 23 && "Grids"@.len() == 5);
    assert("ChunkIndex.mps"@.len() == 14 && "Chunks"@.len() == 6 && "Components"@.len() == 10
        && "Wires"@.len() == 5);
    assert(forall|m: int| 0 <= m < 4 ==> (#[trigger] items[m]).0 != "Bricks"@);
    assert(forall|m: int| 0 <= m < 4 ==> (#[trigger] b[m]).0 != "Grids"@);
    lemma_child_named_at(items, 4, "Bricks"@);
    lemma_child_named_at(b, 4, "Grids"@);
    lemma_grid_child(w.grids@, gi);
    let wf = TreeView::Folder(Some(items));
    let bf = TreeView::Folder(Some(b));
    let gsf = TreeView::Folder(Some(grids_items(w.grids@)));
    let gf = TreeView::Folder(Some(gv));
    let nc: int = if g.1.chunks@.len() > 0 { 1 } else { 0 };
    let np: int = if g.1.components@.len() > 0 { 1 } else { 0 };
    assert(gv[0] == file_v("ChunkIndex.mps"@, g.1.chunk_index@));
    let names = seq!["ChunkIndex.mps"@, "Chunks"@, "Components"@, "Wires"@];
    let files = seq![
        TreeView::File(Some(g.1.chunk_index@)),
        TreeView::Folder(Some(chunk_files(g.1.chunks@))),
        TreeView::Folder(Some(chunk_files(g.1.components@))),
        TreeView::Folder(Some(chunk_files(g.1.wires@))),
    ];
    let idx = seq![0int, 1int, 1 + nc, 1 + nc + np];
    assert forall|q: int|
        0 <= q < 4 && (q == 0 || (q == 1 && g.1.chunks@.len() > 0) || (q == 2 && g.1.components@.len() > 0) || (q
            == 3 && g.1.wires@.len() > 0)) implies node_at(
        unsaved_tree(fs),
        seq!["World"@, id, "Bricks"@, "Grids"@, g.0@].push(#[trigger] names[q]),
    ) == Some(files[q]) by {
        let k = idx[q];
        assert(0 <= k < gv.len() && gv[k] == (names[q], files[q]));
        assert(forall|m: int| 0 <= m < k ==> (#[trigger] gv[m]).0 != names[q]);
        lemma_child_named_at(gv, k, names[q]);
        lemma_world_folder(fs, i, seq!["Bricks"@, "Grids"@, g.0@, names[q]]);
        lemma_node_at_step(wf, "Bricks"@, bf, seq!["Grids"@, g.0@, names[q]]);
        lemma_node_at_step(bf, "Grids"@, gsf, seq![g.0@, names[q]]);
        lemma_node_at_step(gsf, g.0@, gf, seq![names[q]]);
        lemma_node_at_file(gf, names[q], files[q]);
        assert(seq!["Bricks"@] + seq!["Grids"@, g.0@, names[q]] =~= seq!["Bricks"@, "Grids"@, g.0@, names[q]]);
        assert(seq!["Grids"@] + seq![g.0@, names[q]] =~= seq!["Grids"@, g.0@, names[q]]);
        assert(seq![g.0@] + seq![names[q]] =~= seq![g.0@, names[q]]);
        assert(seq!["World"@, id] + seq!["Bricks"@, "Grids"@, g.0@, names[q]] =~= seq![
            "World"@,
            id,
            "Bricks"@,
            "Grids"@,
            g.0@,
        ].push(names[q]));
    }
    assert(names[0] == "ChunkIndex.mps"@ && names[1] == "Chunks"@ && names[2] == "Components"@ && names[3]
        == "Wires"@);
}

} // verus!
