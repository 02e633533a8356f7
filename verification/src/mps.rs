//! Which schema file and which struct describe a data file of a world, by
//! the path of the data file.
use vstd::prelude::*;

use crate::pending::str_chars;
use crate::tree_view::{node_at, TreeView};
use crate::unsaved::{lemma_world_files_placed, lemma_world_schemas_placed, prefabs_avoid, unsaved_tree, UnsavedFiles};

verus! {

/// Whether `t` occurs in `s` at position `i`.
pub open spec fn occurs_at(s: Seq<char>, t: Seq<char>, i: int) -> bool {
    0 <= i && i + t.len() <= s.len() && s.subrange(i, i + t.len()) == t
}

/// Whether `t` occurs somewhere in `s`.
pub open spec fn contains(s: Seq<char>, t: Seq<char>) -> bool {
    exists|i: int| occurs_at(s, t, i)
}

/// Whether `needle` occurs in `hay`.
pub fn str_contains(hay: &str, needle: &str) -> (r: bool)
    ensures
        r == contains(hay@, needle@),
{
    let h = str_chars(hay);
    let n = str_chars(needle);
    if n.len() > h.len() {
        return false;
    }
    let mut i: usize = 0;
    while i <= h.len() - n.len()
        invariant
            h@ == hay@,
            n@ == needle@,
            n@.len() <= h@.len(),
            i <= h@.len() - n@.len() + 1,
            forall|k: int| 0 <= k < i ==> !occurs_at(h@, n@, k),
        decreases h@.len() - i,
    {
        let mut j: usize = 0;
        let mut same = true;
        while j < n.len()
            invariant
                0 <= j <= n@.len(),
                i + n@.len() <= h.len(),
                same == forall|m: int| 0 <= m < j ==> h@[i + m] == n@[m],
            decreases n@.len() - j,
        {
            if h[i + j] != n[j] {
                same = false;
            }
            j = j + 1;
        }
        if same {
            assert(h@.subrange(i as int, i + n@.len()) =~= n@);
            assert(occurs_at(h@, n@, i as int));
            return true;
        }
        assert(!occurs_at(h@, n@, i as int)) by {
            if occurs_at(h@, n@, i as int) {
                let m = choose|m: int| 0 <= m < n@.len() && h@[i + m] != n@[m];
                assert(h@.subrange(i as int, i + n@.len())[m] == h@[i + m]);
            }
        }
        i = i + 1;
    }
    assert forall|k: int| !occurs_at(h@, n@, k) by {
        if 0 <= k && k < i {
        }
    }
    false
}

/// The schema file and the struct that describe the data file at `path`,
/// for the data files a world holds.
pub open spec fn mps_info(path: Seq<char>) -> Option<(Seq<char>, Seq<char>)> {
    if contains(path, "GlobalData.mps"@) {
        Some(("World/0/GlobalData.schema"@, "BRSavedGlobalDataSoA"@))
    } else if contains(path, "Owners.mps"@) {
        Some(("World/0/Owners.schema"@, "BRSavedOwnerTableSoA"@))
    } else if contains(path, "Bricks/Grids/"@) && contains(path, "ChunkIndex.mps"@) {
        Some(("World/0/Bricks/ChunkIndexShared.schema"@, "BRSavedBrickChunkIndexSoA"@))
    } else if contains(path, "Bricks/Grids/"@) && contains(path, "/Chunks/"@) {
        Some(("World/0/Bricks/ChunksShared.schema"@, "BRSavedBrickChunkSoA"@))
    } else if contains(path, "Bricks/Grids/"@) && contains(path, "/Components/"@) {
        Some(("World/0/Bricks/ComponentsShared.schema"@, "BRSavedComponentChunkSoA"@))
    } else if contains(path, "Bricks/Grids/"@) && contains(path, "/Wires/"@) {
        Some(("World/0/Bricks/WiresShared.schema"@, "BRSavedWireChunkSoA"@))
    } else if contains(path, "Entities/ChunkIndex.mps"@) {
        Some(("World/0/Entities/ChunkIndex.schema"@, "BRSavedEntityChunkIndexSoA"@))
    } else if contains(path, "Entities/Chunks/"@) {
        Some(("World/0/Entities/ChunksShared.schema"@, "BRSavedEntityChunkSoA"@))
    } else {
        None
    }
}

/// The schema file and the struct that describe the data file at `path`
/// (see [`mps_info`]).
pub fn resolve_mps_info(path: &str) -> (r: Option<(&'static str, &'static str)>)
    ensures
        match mps_info(path@) {
            Some((a, b)) => r matches Some((x, y)) && x@ == a && y@ == b,
            None => r is None,
        },
{
    if str_contains(path, "GlobalData.mps") {
        return Some(("World/0/GlobalData.schema", "BRSavedGlobalDataSoA"));
    }
    if str_contains(path, "Owners.mps") {
        return Some(("World/0/Owners.schema", "BRSavedOwnerTableSoA"));
    }
    if str_contains(path, "Bricks/Grids/") && str_contains(path, "ChunkIndex.mps") {
        return Some(("World/0/Bricks/ChunkIndexShared.schema", "BRSavedBrickChunkIndexSoA"));
    }
    if str_contains(path, "Bricks/Grids/") && str_contains(path, "/Chunks/") {
        return Some(("World/0/Bricks/ChunksShared.schema", "BRSavedBrickChunkSoA"));
    }
    if str_contains(path, "Bricks/Grids/") && str_contains(path, "/Components/") {
        return Some(("World/0/Bricks/ComponentsShared.schema", "BRSavedComponentChunkSoA"));
    }
    if str_contains(path, "Bricks/Grids/") && str_contains(path, "/Wires/") {
        return Some(("World/0/Bricks/WiresShared.schema", "BRSavedWireChunkSoA"));
    }
    if str_contains(path, "Entities/ChunkIndex.mps") {
        return Some(("World/0/Entities/ChunkIndex.schema", "BRSavedEntityChunkIndexSoA"));
    }
    if str_contains(path, "Entities/Chunks/") {
        return Some(("World/0/Entities/ChunksShared.schema", "BRSavedEntityChunkSoA"));
    }
    None
}

/// The path of a file from its names, joined by slashes.
pub open spec fn joined(segs: Seq<Seq<char>>) -> Seq<char>
    decreases segs.len(),
{
    if segs.len() == 0 {
        seq![]
    } else if segs.len() == 1 {
        segs[0]
    } else {
        segs[0] + "/"@ + joined(segs.drop_first())
    }
}

/// Each data file of a world resolves to the schema file that the layout
/// of a new file writes for that kind of data: its path names the file of
/// world `0` that holds that world's schema bytes for the kind (global
/// data, owners, grid chunk indices, brick chunks, component chunks, wire
/// chunks, the entity chunk index, entity chunks). A data file is told by
/// the names in its path, the first that matches deciding.
pub proof fn lemma_mps_schema_in_layout(p: Seq<char>, fs: UnsavedFiles, i: int)
    requires
        0 <= i < fs.worlds@.len(),
        fs.worlds@[i].0@ == "0"@,
        forall|j: int| 0 <= j < i ==> fs.worlds@[j].0@ != fs.worlds@[i].0@,
        prefabs_avoid(fs.prefabs@, "World"@),
    ensures
        (contains(p, "GlobalData.mps"@)) ==> (mps_info(p) matches Some((s, _)) && s == joined(seq!["World"@, "0"@, "GlobalData.schema"@]) && node_at(
            unsaved_tree(fs),
            seq!["World"@, "0"@, "GlobalData.schema"@],
        ) == Some(TreeView::File(Some(fs.worlds@[i].1.global_data_schema@)))),
        (contains(p, "Owners.mps"@) && !contains(p, "GlobalData.mps"@)) ==> (mps_info(p) matches Some((s, _)) && s == joined(seq!["World"@, "0"@, "Owners.schema"@]) && node_at(
            unsaved_tree(fs),
            seq!["World"@, "0"@, "Owners.schema"@],
        ) == Some(TreeView::File(Some(fs.worlds@[i].1.owners_schema@)))),
        (contains(p, "Bricks/Grids/"@) && contains(p, "ChunkIndex.mps"@) && !contains(p, "GlobalData.mps"@) && !contains(p, "Owners.mps"@)) ==> (mps_info(p) matches Some((s, _)) && s == joined(seq!["World"@, "0"@, "Bricks"@, "ChunkIndexShared.schema"@]) && node_at(
            unsaved_tree(fs),
            seq!["World"@, "0"@, "Bricks"@, "ChunkIndexShared.schema"@],
        ) == Some(TreeView::File(Some(fs.worlds@[i].1.chunk_index_shared_schema@)))),
        (contains(p, "Bricks/Grids/"@) && contains(p, "/Chunks/"@) && !contains(p, "GlobalData.mps"@) && !contains(p, "Owners.mps"@) && !contains(p, "ChunkIndex.mps"@)) ==> (mps_info(p) matches Some((s, _)) && s == joined(seq!["World"@, "0"@, "Bricks"@, "ChunksShared.schema"@]) && node_at(
            unsaved_tree(fs),
            seq!["World"@, "0"@, "Bricks"@, "ChunksShared.schema"@],
        ) == Some(TreeView::File(Some(fs.worlds@[i].1.chunks_shared_schema@)))),
        (contains(p, "Bricks/Grids/"@) && contains(p, "/Components/"@) && !contains(p, "GlobalData.mps"@) && !contains(p, "Owners.mps"@) && !contains(p, "ChunkIndex.mps"@) && !contains(p, "/Chunks/"@)) ==> (mps_info(p) matches Some((s, _)) && s == joined(seq!["World"@, "0"@, "Bricks"@, "ComponentsShared.schema"@]) && node_at(
            unsaved_tree(fs),
            seq!["World"@, "0"@, "Bricks"@, "ComponentsShared.schema"@],
        ) == Some(TreeView::File(Some(fs.worlds@[i].1.components_shared_schema@)))),
        (contains(p, "Bricks/Grids/"@) && contains(p, "/Wires/"@) && !contains(p, "GlobalData.mps"@) && !contains(p, "Owners.mps"@) && !contains(p, "ChunkIndex.mps"@) && !contains(p, "/Chunks/"@) && !contains(p, "/Components/"@)) ==> (mps_info(p) matches Some((s, _)) && s == joined(seq!["World"@, "0"@, "Bricks"@, "WiresShared.schema"@]) && node_at(
            unsaved_tree(fs),
            seq!["World"@, "0"@, "Bricks"@, "WiresShared.schema"@],
        ) == Some(TreeView::File(Some(fs.worlds@[i].1.wires_shared_schema@)))),
        (contains(p, "Entities/ChunkIndex.mps"@) && !contains(p, "GlobalData.mps"@) && !contains(p, "Owners.mps"@) && !contains(p, "Bricks/Grids/"@)) ==> (mps_info(p) matches Some((s, _)) && s == joined(seq!["World"@, "0"@, "Entities"@, "ChunkIndex.schema"@]) && node_at(
            unsaved_tree(fs),
            seq!["World"@, "0"@, "Entities"@, "ChunkIndex.schema"@],
        ) == Some(TreeView::File(Some(fs.worlds@[i].1.entity_chunk_index_schema@)))),
        (contains(p, "Entities/Chunks/"@) && !contains(p, "GlobalData.mps"@) && !contains(p, "Owners.mps"@) && !contains(p, "Entities/ChunkIndex.mps"@) && !contains(p, "Bricks/Grids/"@)) ==> (mps_info(p) matches Some((s, _)) && s == joined(seq!["World"@, "0"@, "Entities"@, "ChunksShared.schema"@]) && node_at(
            unsaved_tree(fs),
            seq!["World"@, "0"@, "Entities"@, "ChunksShared.schema"@],
        ) == Some(TreeView::File(Some(fs.worlds@[i].1.entity_chunks_schema@)))),
{
    lemma_world_files_placed(fs, i);
    lemma_world_schemas_placed(fs, i);
    reveal_with_fuel(joined, 5);
    reveal_strlit("/");
    reveal_strlit("World");
    reveal_strlit("0");
    reveal_strlit("Bricks");
    reveal_strlit("Entities");
    reveal_strlit("GlobalData.schema");
    reveal_strlit("Owners.schema");
    reveal_strlit("ChunkIndexShared.schema");
    reveal_strlit("ChunksShared.schema");
    reveal_strlit("ComponentsShared.schema");
    reveal_strlit("WiresShared.schema");
    reveal_strlit("ChunkIndex.schema");
    reveal_strlit("World/0/GlobalData.schema");
    assert("World/0/GlobalData.schema"@ =~= joined(seq!["World"@, "0"@, "GlobalData.schema"@]));
    reveal_strlit("World/0/Owners.schema");
    assert("World/0/Owners.schema"@ =~= joined(seq!["World"@, "0"@, "Owners.schema"@]));
    reveal_strlit("World/0/Bricks/ChunkIndexShared.schema");
    assert("World/0/Bricks/ChunkIndexShared.schema"@ =~= joined(seq!["World"@, "0"@, "Bricks"@, "ChunkIndexShared.schema"@]));
    reveal_strlit("World/0/Bricks/ChunksShared.schema");
    assert("World/0/Bricks/ChunksShared.schema"@ =~= joined(seq!["World"@, "0"@, "Bricks"@, "ChunksShared.schema"@]));
    reveal_strlit("World/0/Bricks/ComponentsShared.schema");
    assert("World/0/Bricks/ComponentsShared.schema"@ =~= joined(seq!["World"@, "0"@, "Bricks"@, "ComponentsShared.schema"@]));
    reveal_strlit("World/0/Bricks/WiresShared.schema");
    assert("World/0/Bricks/WiresShared.schema"@ =~= joined(seq!["World"@, "0"@, "Bricks"@, "WiresShared.schema"@]));
    reveal_strlit("World/0/Entities/ChunkIndex.schema");
    assert("World/0/Entities/ChunkIndex.schema"@ =~= joined(seq!["World"@, "0"@, "Entities"@, "ChunkIndex.schema"@]));
    reveal_strlit("World/0/Entities/ChunksShared.schema");
    assert("World/0/Entities/ChunksShared.schema"@ =~= joined(seq!["World"@, "0"@, "Entities"@, "ChunksShared.schema"@]));
}

} // verus!
