//! The global data of a world: the ordered name tables that bricks, entities,
//! components and wire ports refer to by index. The tables are `IndexSet`s
//! of the `indexmap` crate: each name occurs once, at the position where it
//! was first inserted.
use vstd::prelude::*;

use indexmap::IndexSet;
use std::collections::HashSet;

use crate::brick::Brick;
use crate::entities::{entity_struct_name, lookup_entity_struct_name};
use crate::errors::BrdbSchemaError;
use crate::model::{str_eq, BString, BrickType};
use crate::schema_meta::names_view;

verus! {

#[verifier::external_type_specification]
#[verifier::external_body]
#[verifier::reject_recursive_types(T)]
#[verifier::reject_recursive_types(S)]
pub struct ExIndexSet<T, S>(IndexSet<T, S>);

/// The names that a name table holds, in their order.
pub uninterp spec fn name_table(s: IndexSet<String>) -> Seq<Seq<char>>;

/// The pairs of names that a table of pairs holds, in their order.
pub uninterp spec fn pair_table(s: IndexSet<(String, String)>) -> Seq<(Seq<char>, Seq<char>)>;

/// The first position of `n` in `items`.
pub open spec fn first_index(items: Seq<Seq<char>>, n: Seq<char>) -> Option<int>
    decreases items.len(),
{
    if items.len() == 0 {
        None
    } else if items[0] == n {
        Some(0)
    } else {
        match first_index(items.drop_first(), n) {
            Some(i) => Some(i + 1),
            None => None,
        }
    }
}

pub proof fn lemma_first_index(items: Seq<Seq<char>>, n: Seq<char>)
    ensures
        first_index(items, n) matches Some(i) ==> 0 <= i < items.len() && items[i] == n && forall|j: int|
            0 <= j < i ==> items[j] != n,
        first_index(items, n) is None <==> !items.contains(n),
    decreases items.len(),
{
    if items.len() > 0 {
        lemma_first_index(items.drop_first(), n);
        if items[0] != n {
            assert forall|j: int| 0 < j < items.len() implies items[j] == items.drop_first()[j - 1] by {}
            if items.contains(n) {
                let j = choose|j: int| 0 <= j < items.len() && items[j] == n;
                assert(items.drop_first()[j - 1] == n);
            }
        }
    }
}

/// `items` with `n` added at the end, unless it holds `n` already.
pub open spec fn with_name(items: Seq<Seq<char>>, n: Seq<char>) -> Seq<Seq<char>> {
    if items.contains(n) {
        items
    } else {
        items.push(n)
    }
}

/// An empty table made by `IndexSet::new`.
#[verifier::external_body]
fn new_name_table() -> (s: IndexSet<String>)
    ensures
        name_table(s) == Seq::<Seq<char>>::empty(),
{
    IndexSet::new()
}

/// An empty table of pairs made by `IndexSet::new`.
#[verifier::external_body]
fn new_pair_table() -> (s: IndexSet<(String, String)>)
    ensures
        pair_table(s) == Seq::<(Seq<char>, Seq<char>)>::empty(),
{
    IndexSet::new()
}

/// `IndexSet::len`: the number of names in the table.
#[verifier::external_body]
fn table_len(s: &IndexSet<String>) -> (n: usize)
    ensures
        n == name_table(*s).len(),
{
    s.len()
}

/// `IndexSet::contains`: whether the table holds `name`.
#[verifier::external_body]
fn table_contains(s: &IndexSet<String>, name: &str) -> (b: bool)
    ensures
        b == name_table(*s).contains(name@),
{
    s.contains(name)
}

/// `IndexSet::insert`: adds `name` at the end where the table does not hold
/// it yet, and says whether it did; a table that holds it is left as it is.
#[verifier::external_body]
fn table_insert(s: &mut IndexSet<String>, name: String) -> (added: bool)
    ensures
        added == !name_table(*old(s)).contains(name@),
        name_table(*final(s)) == with_name(name_table(*old(s)), name@),
{
    s.insert(name)
}

/// `IndexSet::get_index_of`: the position of `name` in the table, which
/// holds each name once.
#[verifier::external_body]
pub(crate) fn table_index_of(s: &IndexSet<String>, name: &str) -> (r: Option<usize>)
    ensures
        match r {
            Some(k) => first_index(name_table(*s), name@) == Some(k as int),
            None => first_index(name_table(*s), name@) is None,
        },
{
    s.get_index_of(name)
}

/// `IndexSet::get_index`: the name at position `i`, where there is one.
#[verifier::external_body]
fn table_get(s: &IndexSet<String>, i: usize) -> (r: Option<&String>)
    ensures
        match r {
            Some(x) => i < name_table(*s).len() && x@ == name_table(*s)[i as int],
            None => i >= name_table(*s).len(),
        },
{
    s.get_index(i)
}

/// `items` with the pair `p` added at the end, unless it holds `p` already.
pub open spec fn with_pair(
    items: Seq<(Seq<char>, Seq<char>)>,
    p: (Seq<char>, Seq<char>),
) -> Seq<(Seq<char>, Seq<char>)> {
    if items.contains(p) {
        items
    } else {
        items.push(p)
    }
}

/// `IndexSet::insert` on a table of pairs: adds the pair at the end where
/// the table does not hold it yet; a table that holds it is left as it is.
#[verifier::external_body]
fn pair_table_insert(s: &mut IndexSet<(String, String)>, a: String, b: String)
    ensures
        pair_table(*final(s)) == with_pair(pair_table(*old(s)), (a@, b@)),
{
    s.insert((a, b));
}

/// The table that inserting the names `ns` in order builds: each name once,
/// where it first came.
pub open spec fn table_of(ns: Seq<Seq<char>>) -> Seq<Seq<char>>
    decreases ns.len(),
{
    if ns.len() == 0 {
        seq![]
    } else {
        with_name(table_of(ns.drop_last()), ns.last())
    }
}

/// The table of pairs that inserting `ps` in order builds.
pub open spec fn pair_table_of(ps: Seq<(Seq<char>, Seq<char>)>) -> Seq<(Seq<char>, Seq<char>)>
    decreases ps.len(),
{
    if ps.len() == 0 {
        seq![]
    } else {
        with_pair(pair_table_of(ps.drop_last()), ps.last())
    }
}

/// The class name that an entity type gets where a world lists none: the
/// known one for the type, else "Unknown".
pub open spec fn class_or_unknown(t: Seq<char>) -> Seq<char> {
    match entity_struct_name(t) {
        Some(c) => c,
        None => "Unknown"@,
    }
}

/// The name table built from the names `ns`, in order.
fn table_from(ns: &Vec<String>) -> (t: IndexSet<String>)
    ensures
        name_table(t) == table_of(names_view(ns@)),
{
    let ghost v = names_view(ns@);
    let mut t = new_name_table();
    let mut i: usize = 0;
    while i < ns.len()
        invariant
            i <= ns@.len(),
            v == names_view(ns@),
            name_table(t) == table_of(v.take(i as int)),
        decreases ns@.len() - i,
    {
        table_insert(&mut t, ns[i].as_str().to_owned());
        assert(v.take(i + 1).drop_last() =~= v.take(i as int));
        i = i + 1;
    }
    assert(v.take(ns@.len() as int) =~= v);
    t
}
/// The name tables of a world, and the index of its global grid entity type.
pub struct BrdbSchemaGlobalData {
    pub entity_type_names: IndexSet<String>,
    pub entity_data_class_names: IndexSet<String>,
    pub basic_brick_asset_names: IndexSet<String>,
    pub procedural_brick_asset_names: IndexSet<String>,
    pub material_asset_names: IndexSet<String>,
    pub component_type_names: IndexSet<String>,
    pub component_data_struct_names: Vec<String>,
    pub component_wire_port_names: IndexSet<String>,
    /// Kept for type checking; not written to a world.
    pub external_asset_types: HashSet<String>,
    pub external_asset_references: IndexSet<(String, String)>,
    /// Index into `entity_type_names` of the global grid entity type, or -1
    /// where the world has no global grid.
    pub global_grid_entity_type_index: i32,
}

impl Default for BrdbSchemaGlobalData {
    fn default() -> (g: BrdbSchemaGlobalData)
        ensures
            name_table(g.entity_type_names) == Seq::<Seq<char>>::empty(),
            name_table(g.entity_data_class_names) == Seq::<Seq<char>>::empty(),
            name_table(g.basic_brick_asset_names) == Seq::<Seq<char>>::empty(),
            name_table(g.procedural_brick_asset_names) == Seq::<Seq<char>>::empty(),
            name_table(g.material_asset_names) == Seq::<Seq<char>>::empty(),
            name_table(g.component_type_names) == Seq::<Seq<char>>::empty(),
            g.component_data_struct_names@ == Seq::<String>::empty(),
            name_table(g.component_wire_port_names) == Seq::<Seq<char>>::empty(),
            g.external_asset_types@ == Set::<String>::empty(),
            pair_table(g.external_asset_references) == Seq::<(Seq<char>, Seq<char>)>::empty(),
            g.global_grid_entity_type_index == -1,
    {
        BrdbSchemaGlobalData {
            entity_type_names: new_name_table(),
            entity_data_class_names: new_name_table(),
            basic_brick_asset_names: new_name_table(),
            procedural_brick_asset_names: new_name_table(),
            material_asset_names: new_name_table(),
            component_type_names: new_name_table(),
            component_data_struct_names: Vec::new(),
            component_wire_port_names: new_name_table(),
            external_asset_types: HashSet::new(),
            external_asset_references: new_pair_table(),
            global_grid_entity_type_index: -1,
        }
    }
}

/// The data-struct name of the component type named `t`: the entry of the
/// struct-name list at the position of `t` among the component types; none
/// where `t` is not among them, the list is too short, or the entry is
/// "None".
pub open spec fn struct_name_of(g: BrdbSchemaGlobalData, t: Seq<char>) -> Option<Seq<char>> {
    match first_index(name_table(g.component_type_names), t) {
        Some(i) => if i < g.component_data_struct_names@.len() && g.component_data_struct_names@[i]@
            != "None"@ {
            Some(g.component_data_struct_names@[i]@)
        } else {
            None
        },
        None => None,
    }
}

/// The data-class name of the entity type named `t`: the class name at the
/// position of `t` among the entity types.
pub open spec fn class_name_of(g: BrdbSchemaGlobalData, t: Seq<char>) -> Option<Seq<char>> {
    match first_index(name_table(g.entity_type_names), t) {
        Some(i) => if i < name_table(g.entity_data_class_names).len() {
            Some(name_table(g.entity_data_class_names)[i])
        } else {
            None
        },
        None => None,
    }
}

/// The class name that an entity type gets where none is given: the known
/// one for the type, else the type name itself.
pub open spec fn default_class_name(t: Seq<char>) -> Seq<char> {
    match entity_struct_name(t) {
        Some(s) => s,
        None => t,
    }
}

impl BrdbSchemaGlobalData {
    /// Adds the material and the asset of `brick` to their tables where they
    /// are not there yet.
    pub fn add_brick_meta(&mut self, brick: &Brick)
        ensures
            name_table(final(self).material_asset_names) == with_name(
                name_table(old(self).material_asset_names),
                brick.material@,
            ),
            match brick.asset {
                BrickType::Basic(a) => name_table(final(self).basic_brick_asset_names) == with_name(
                    name_table(old(self).basic_brick_asset_names),
                    a@,
                ) && final(self).procedural_brick_asset_names == old(self).procedural_brick_asset_names,
                BrickType::Procedural { asset, .. } => name_table(final(self).procedural_brick_asset_names)
                    == with_name(name_table(old(self).procedural_brick_asset_names), asset@)
                    && final(self).basic_brick_asset_names == old(self).basic_brick_asset_names,
            },
            *final(self) == (BrdbSchemaGlobalData {
                material_asset_names: final(self).material_asset_names,
                basic_brick_asset_names: final(self).basic_brick_asset_names,
                procedural_brick_asset_names: final(self).procedural_brick_asset_names,
                ..*old(self)
            }),
    {
        if !table_contains(&self.material_asset_names, brick.material.as_str()) {
            table_insert(&mut self.material_asset_names, brick.material.as_str().to_owned());
        }
        match &brick.asset {
            BrickType::Basic(asset) => {
                if !table_contains(&self.basic_brick_asset_names, asset.as_str()) {
                    table_insert(&mut self.basic_brick_asset_names, asset.as_str().to_owned());
                }
            },
            BrickType::Procedural { asset, .. } => {
                if !table_contains(&self.procedural_brick_asset_names, asset.as_str()) {
                    table_insert(&mut self.procedural_brick_asset_names, asset.as_str().to_owned());
                }
            },
        }
    }
}

impl BrdbSchemaGlobalData {
    /// The number of component types.
    pub fn component_type_count(&self) -> (r: usize)
        ensures
            r == name_table(self.component_type_names).len(),
    {
        table_len(&self.component_type_names)
    }

    /// The data-struct name of the component type named `ty_name` (see
    /// [`struct_name_of`]).
    pub fn get_struct_name(&self, ty_name: &str) -> (r: Option<&str>)
        ensures
            match struct_name_of(*self, ty_name@) {
                Some(n) => r matches Some(x) && x@ == n,
                None => r is None,
            },
    {
        proof {
            lemma_first_index(name_table(self.component_type_names), ty_name@);
        }
        let idx = match table_index_of(&self.component_type_names, ty_name) {
            Some(i) => i,
            None => {
                return None;
            },
        };
        if idx >= self.component_data_struct_names.len() {
            return None;
        }
        let sn = &self.component_data_struct_names[idx];
        if str_eq(sn.as_str(), "None") {
            None
        } else {
            Some(sn.as_str())
        }
    }

    /// The data-class name of the entity type named `ty_name` (see
    /// [`class_name_of`]).
    pub fn get_entity_class_name(&self, ty_name: &str) -> (r: Option<&str>)
        ensures
            match class_name_of(*self, ty_name@) {
                Some(n) => r matches Some(x) && x@ == n,
                None => r is None,
            },
    {
        let idx = match table_index_of(&self.entity_type_names, ty_name) {
            Some(i) => i,
            None => {
                return None;
            },
        };
        match table_get(&self.entity_data_class_names, idx) {
            Some(s) => Some(s.as_str()),
            None => None,
        }
    }

    /// The position of the wire port named `port_name`, as a 16-bit index.
    pub fn get_port_index(&self, port_name: &str) -> (r: Option<u16>)
        ensures
            match first_index(name_table(self.component_wire_port_names), port_name@) {
                Some(i) => r == Some(#[verifier::truncate] (i as u16)),
                None => r is None,
            },
    {
        match table_index_of(&self.component_wire_port_names, port_name) {
            Some(i) => Some(#[verifier::truncate] (i as u16)),
            None => None,
        }
    }

    /// The position of the component type named `ty_name`, as a 16-bit
    /// index.
    pub fn get_component_type_index(&self, ty_name: &str) -> (r: Option<u16>)
        ensures
            match first_index(name_table(self.component_type_names), ty_name@) {
                Some(i) => r == Some(#[verifier::truncate] (i as u16)),
                None => r is None,
            },
    {
        match table_index_of(&self.component_type_names, ty_name) {
            Some(i) => Some(#[verifier::truncate] (i as u16)),
            None => None,
        }
    }

    /// Whether a component type named `ty_name` is known.
    pub fn has_component_type(&self, ty_name: &str) -> (r: bool)
        ensures
            r == name_table(self.component_type_names).contains(ty_name@),
    {
        table_contains(&self.component_type_names, ty_name)
    }

    /// The number of basic brick assets: the type ids of procedural bricks
    /// count on from there.
    pub fn proc_brick_starting_index(&self) -> (r: u32)
        ensures
            r == name_table(self.basic_brick_asset_names).len() as u32,
    {
        #[verifier::truncate]
        (table_len(&self.basic_brick_asset_names) as u32)
    }
}

/// Whether `e` is the error for a missing index `index` of the table `table`.
pub open spec fn unknown_asset(e: BrdbSchemaError, table: Seq<char>, index: usize) -> bool {
    e matches BrdbSchemaError::UnknownAsset(t, i) && t@ == table && i == index
}

impl BrdbSchemaGlobalData {
    /// Registers the entity type named `ty_name` where it is new, together
    /// with its class name (see [`default_class_name`]).
    pub fn add_entity_type(&mut self, ty_name: &str)
        ensures
            name_table(final(self).entity_type_names) == with_name(
                name_table(old(self).entity_type_names),
                ty_name@,
            ),
            name_table(final(self).entity_data_class_names) == if name_table(
                old(self).entity_type_names,
            ).contains(ty_name@) {
                name_table(old(self).entity_data_class_names)
            } else {
                with_name(name_table(old(self).entity_data_class_names), default_class_name(ty_name@))
            },
            *final(self) == (BrdbSchemaGlobalData {
                entity_type_names: final(self).entity_type_names,
                entity_data_class_names: final(self).entity_data_class_names,
                ..*old(self)
            }),
    {
        if table_insert(&mut self.entity_type_names, ty_name.to_owned()) {
            let class = match lookup_entity_struct_name(ty_name) {
                Some(c) => c,
                None => ty_name,
            };
            table_insert(&mut self.entity_data_class_names, class.to_owned());
        }
    }

    /// Registers the entity type named `ty_name` where it is new, together
    /// with the class name `class_name`, so that the two tables stay
    /// parallel.
    pub fn add_entity_type_with_class(&mut self, ty_name: &str, class_name: &str)
        ensures
            name_table(final(self).entity_type_names) == with_name(
                name_table(old(self).entity_type_names),
                ty_name@,
            ),
            name_table(final(self).entity_data_class_names) == if name_table(
                old(self).entity_type_names,
            ).contains(ty_name@) {
                name_table(old(self).entity_data_class_names)
            } else {
                with_name(name_table(old(self).entity_data_class_names), class_name@)
            },
            *final(self) == (BrdbSchemaGlobalData {
                entity_type_names: final(self).entity_type_names,
                entity_data_class_names: final(self).entity_data_class_names,
                ..*old(self)
            }),
    {
        if table_insert(&mut self.entity_type_names, ty_name.to_owned()) {
            table_insert(&mut self.entity_data_class_names, class_name.to_owned());
        }
    }

    /// The basic brick asset at position `index`.
    pub fn basic_brick_asset_by_index(&self, index: usize) -> (r: Result<BString, BrdbSchemaError>)
        ensures
            match r {
                Ok(b) => index < name_table(self.basic_brick_asset_names).len() && b@ == name_table(
                    self.basic_brick_asset_names,
                )[index as int],
                Err(e) => index >= name_table(self.basic_brick_asset_names).len() && unknown_asset(
                    e,
                    "basic_brick_asset_name"@,
                    index,
                ),
            },
    {
        match table_get(&self.basic_brick_asset_names, index) {
            Some(s) => Ok(BString::str(s.as_str())),
            None => Err(BrdbSchemaError::UnknownAsset("basic_brick_asset_name".to_owned(), index)),
        }
    }

    /// The procedural brick asset at position `index`.
    pub fn procedural_brick_asset_by_index(&self, index: usize) -> (r: Result<BString, BrdbSchemaError>)
        ensures
            match r {
                Ok(b) => index < name_table(self.procedural_brick_asset_names).len() && b@ == name_table(
                    self.procedural_brick_asset_names,
                )[index as int],
                Err(e) => index >= name_table(self.procedural_brick_asset_names).len() && unknown_asset(
                    e,
                    "procedural_brick_asset_name"@,
                    index,
                ),
            },
    {
        match table_get(&self.procedural_brick_asset_names, index) {
            Some(s) => Ok(BString::str(s.as_str())),
            None => Err(BrdbSchemaError::UnknownAsset("procedural_brick_asset_name".to_owned(), index)),
        }
    }

    /// The material asset at position `index`.
    pub fn material_asset_by_index(&self, index: usize) -> (r: Result<BString, BrdbSchemaError>)
        ensures
            match r {
                Ok(b) => index < name_table(self.material_asset_names).len() && b@ == name_table(
                    self.material_asset_names,
                )[index as int],
                Err(e) => index >= name_table(self.material_asset_names).len() && unknown_asset(
                    e,
                    "material_asset_name"@,
                    index,
                ),
            },
    {
        match table_get(&self.material_asset_names, index) {
            Some(s) => Ok(BString::str(s.as_str())),
            None => Err(BrdbSchemaError::UnknownAsset("material_asset_name".to_owned(), index)),
        }
    }
}

/// The global data of a saved world as its schema file lays it out: each
/// name list in the order written, the class names and the global grid
/// index only where the world has them.
pub struct GlobalDataModel {
    pub entity_type_names: Vec<String>,
    pub entity_data_class_names: Option<Vec<String>>,
    pub basic_brick_asset_names: Vec<String>,
    pub procedural_brick_asset_names: Vec<String>,
    pub material_asset_names: Vec<String>,
    pub component_type_names: Vec<String>,
    pub component_data_struct_names: Vec<String>,
    pub component_wire_port_names: Vec<String>,
    /// Each as its primary asset type and its primary asset name.
    pub external_asset_references: Vec<(String, String)>,
    pub global_grid_entity_type_index: Option<i32>,
}

pub open spec fn pairs_view(v: Seq<(String, String)>) -> Seq<(Seq<char>, Seq<char>)> {
    v.map_values(|p: (String, String)| (p.0@, p.1@))
}

/// The global data of a world: each name table built from its list in order,
/// each name once; the class names from the world's own list, or else the
/// known class name of each entity type ("Unknown" where none is known);
/// the references as a table of pairs; the global grid index, or -1.
pub fn global_data_of(m: &GlobalDataModel) -> (g: BrdbSchemaGlobalData)
    ensures
        name_table(g.entity_type_names) == table_of(names_view(m.entity_type_names@)),
        name_table(g.entity_data_class_names) == match m.entity_data_class_names {
            Some(cs) => table_of(names_view(cs@)),
            None => table_of(
                table_of(names_view(m.entity_type_names@)).map_values(|t: Seq<char>| class_or_unknown(t)),
            ),
        },
        name_table(g.basic_brick_asset_names) == table_of(names_view(m.basic_brick_asset_names@)),
        name_table(g.procedural_brick_asset_names) == table_of(
            names_view(m.procedural_brick_asset_names@),
        ),
        name_table(g.material_asset_names) == table_of(names_view(m.material_asset_names@)),
        name_table(g.component_type_names) == table_of(names_view(m.component_type_names@)),
        names_view(g.component_data_struct_names@) == names_view(m.component_data_struct_names@),
        name_table(g.component_wire_port_names) == table_of(names_view(m.component_wire_port_names@)),
        pair_table(g.external_asset_references) == pair_table_of(pairs_view(m.external_asset_references@)),
        g.global_grid_entity_type_index == match m.global_grid_entity_type_index {
            Some(i) => i,
            None => -1i32,
        },
{
    let mut external_asset_types: HashSet<String> = HashSet::new();
    let mut refs = new_pair_table();
    let ghost pv = pairs_view(m.external_asset_references@);
    let mut i: usize = 0;
    while i < m.external_asset_references.len()
        invariant
            i <= m.external_asset_references@.len(),
            pv == pairs_view(m.external_asset_references@),
            pair_table(refs) == pair_table_of(pv.take(i as int)),
        decreases m.external_asset_references@.len() - i,
    {
        let (a, b) = &m.external_asset_references[i];
        external_asset_types.insert(a.as_str().to_owned());
        pair_table_insert(&mut refs, a.as_str().to_owned(), b.as_str().to_owned());
        assert(pv.take(i + 1).drop_last() =~= pv.take(i as int));
        i = i + 1;
    }
    assert(pv.take(m.external_asset_references@.len() as int) =~= pv);
    let entity_type_names = table_from(&m.entity_type_names);
    let entity_data_class_names = match &m.entity_data_class_names {
        Some(cs) => table_from(cs),
        None => {
            let ghost types = name_table(entity_type_names);
            let ghost mapped = types.map_values(|t: Seq<char>| class_or_unknown(t));
            let mut t = new_name_table();
            let n = table_len(&entity_type_names);
            let mut j: usize = 0;
            while j < n
                invariant
                    j <= n,
                    n == types.len(),
                    types == name_table(entity_type_names),
                    mapped == types.map_values(|t: Seq<char>| class_or_unknown(t)),
                    name_table(t) == table_of(mapped.take(j as int)),
                decreases n - j,
            {
                let name = table_get(&entity_type_names, j).unwrap();
                let class = match lookup_entity_struct_name(name.as_str()) {
                    Some(c) => c,
                    None => "Unknown",
                };
                proof {
                    reveal_strlit("Unknown");
                }
                table_insert(&mut t, class.to_owned());
                assert(mapped.take(j + 1).drop_last() =~= mapped.take(j as int));
                j = j + 1;
            }
            assert(mapped.take(n as int) =~= mapped);
            t
        },
    };
    let mut struct_names: Vec<String> = Vec::new();
    let mut k: usize = 0;
    while k < m.component_data_struct_names.len()
        invariant
            k <= m.component_data_struct_names@.len(),
            struct_names@.len() == k,
            forall|q: int| 0 <= q < k ==> (#[trigger] struct_names@[q])@ == m.component_data_struct_names@[q]@,
        decreases m.component_data_struct_names@.len() - k,
    {
        let ghost before = struct_names@;
        let x = m.component_data_struct_names[k].as_str().to_owned();
        struct_names.push(x);
        assert(forall|q: int| 0 <= q < k ==> struct_names@[q] == before[q]);
        k = k + 1;
    }
    assert(names_view(struct_names@) =~= names_view(m.component_data_struct_names@));
    BrdbSchemaGlobalData {
        entity_type_names,
        entity_data_class_names,
        basic_brick_asset_names: table_from(&m.basic_brick_asset_names),
        procedural_brick_asset_names: table_from(&m.procedural_brick_asset_names),
        material_asset_names: table_from(&m.material_asset_names),
        component_type_names: table_from(&m.component_type_names),
        component_data_struct_names: struct_names,
        component_wire_port_names: table_from(&m.component_wire_port_names),
        external_asset_types,
        external_asset_references: refs,
        global_grid_entity_type_index: match m.global_grid_entity_type_index {
            Some(i) => i,
            None => -1,
        },
    }
}

} // verus!
