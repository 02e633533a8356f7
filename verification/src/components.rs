//! The component chunk of a grid chunk: which component types follow one
//! another (as runs of one type), the brick each component sits on, and the
//! components whose data struct is still to be written.
use vstd::prelude::*;

use crate::brick::BrdbComponent;
use crate::errors::BrdbWorldError;
use crate::global_data::{first_index, name_table, struct_name_of, table_index_of, BrdbSchemaGlobalData};
use crate::model::ComponentTypeCounter;

verus! {

/// `n` times the type `t`.
pub open spec fn run_of(t: u32, n: nat) -> Seq<u32> {
    Seq::new(n, |_i: int| t)
}

/// The type of each component, in order, that the runs `cs` stand for.
pub open spec fn expand(cs: Seq<ComponentTypeCounter>) -> Seq<u32>
    decreases cs.len(),
{
    if cs.len() == 0 {
        seq![]
    } else {
        expand(cs.drop_last()) + run_of(cs.last().type_index, cs.last().num_instances as nat)
    }
}

/// Runs as they are kept: none empty, and no two neighbours of one type.
pub open spec fn runs_ok(cs: Seq<ComponentTypeCounter>) -> bool {
    &&& forall|i: int| 0 <= i < cs.len() ==> #[trigger] cs[i].num_instances > 0
    &&& forall|i: int| 0 < i < cs.len() ==> #[trigger] cs[i].type_index != cs[i - 1].type_index
}

/// The last run holds no more components than all of them.
proof fn lemma_last_run_le(cs: Seq<ComponentTypeCounter>)
    requires
        cs.len() > 0,
    ensures
        cs.last().num_instances <= expand(cs).len(),
{
}

/// The components of the chunk's bricks.
pub struct ComponentChunkSoA {
    pub component_type_counters: Vec<ComponentTypeCounter>,
    pub component_brick_indices: Vec<u32>,
    pub joint_brick_indices: Vec<u32>,
    pub joint_entity_references: Vec<u32>,
    /// The bricks of the chunk that host a microchip, by their index in the
    /// chunk.
    pub microchip_brick_indices: Vec<u32>,
    /// The entity holding the inner grid of each of those microchips.
    pub microchip_brick_grid_references: Vec<u32>,
    /// The components whose data struct is still to be written, in order.
    pub unwritten_struct_data: Vec<Box<dyn BrdbComponent>>,
}

impl ComponentChunkSoA {
    /// A chunk with no component.
    pub fn new() -> (r: ComponentChunkSoA)
        ensures
            r.component_type_counters@ == Seq::<ComponentTypeCounter>::empty(),
            r.component_brick_indices@ == Seq::<u32>::empty(),
            r.joint_brick_indices@ == Seq::<u32>::empty(),
            r.joint_entity_references@ == Seq::<u32>::empty(),
            r.microchip_brick_indices@ == Seq::<u32>::empty(),
            r.microchip_brick_grid_references@ == Seq::<u32>::empty(),
            r.unwritten_struct_data@.len() == 0,
    {
        ComponentChunkSoA {
            component_type_counters: Vec::new(),
            component_brick_indices: Vec::new(),
            joint_brick_indices: Vec::new(),
            joint_entity_references: Vec::new(),
            microchip_brick_indices: Vec::new(),
            microchip_brick_grid_references: Vec::new(),
            unwritten_struct_data: Vec::new(),
        }
    }

    /// Records one more component of the type at position `k` of the
    /// component types: it extends the last run where that run is of the
    /// same type, else it starts a run.
    fn count_type(&mut self, k: u32)
        requires
            expand(old(self).component_type_counters@).len() < u32::MAX,
        ensures
            expand(final(self).component_type_counters@) == expand(old(self).component_type_counters@).push(k),
            runs_ok(old(self).component_type_counters@) ==> runs_ok(final(self).component_type_counters@),
            final(self).component_brick_indices == old(self).component_brick_indices,
            final(self).joint_brick_indices == old(self).joint_brick_indices,
            final(self).joint_entity_references == old(self).joint_entity_references,
            final(self).microchip_brick_indices == old(self).microchip_brick_indices,
            final(self).microchip_brick_grid_references == old(self).microchip_brick_grid_references,
            final(self).unwritten_struct_data == old(self).unwritten_struct_data,
    {
        let ghost cs = self.component_type_counters@;
        let n = self.component_type_counters.len();
        if n > 0 && self.component_type_counters[n - 1].type_index == k {
            let last = self.component_type_counters[n - 1];
            proof {
                lemma_last_run_le(cs);
            }
            let c = ComponentTypeCounter { type_index: k, num_instances: last.num_instances + 1 };
            self.component_type_counters.set(n - 1, c);
            proof {
                let cs2 = self.component_type_counters@;
                assert(cs2.drop_last() =~= cs.drop_last());
                assert(run_of(k, c.num_instances as nat) =~= run_of(k, last.num_instances as nat).push(k));
                assert(expand(cs2) =~= expand(cs).push(k));
                if runs_ok(cs) {
                    assert forall|i: int| 0 < i < cs2.len() implies #[trigger] cs2[i].type_index != cs2[i
                        - 1].type_index by {
                        assert(cs[i].type_index != cs[i - 1].type_index);
                    }
                    assert forall|i: int| 0 <= i < cs2.len() implies #[trigger] cs2[i].num_instances > 0 by {
                        assert(cs[i].num_instances > 0);
                    }
                }
            }
        } else {
            let c = ComponentTypeCounter { type_index: k, num_instances: 1 };
            self.component_type_counters.push(c);
            proof {
                let cs2 = self.component_type_counters@;
                assert(cs2.drop_last() =~= cs);
                assert(run_of(k, 1) =~= seq![k]);
                assert(expand(cs2) =~= expand(cs).push(k));
                if runs_ok(cs) {
                    assert forall|i: int| 0 < i < cs2.len() implies #[trigger] cs2[i].type_index != cs2[i
                        - 1].type_index by {
                        if i < cs.len() {
                            assert(cs[i].type_index != cs[i - 1].type_index);
                        }
                    }
                    assert forall|i: int| 0 <= i < cs2.len() implies #[trigger] cs2[i].num_instances > 0 by {
                        if i < cs.len() {
                            assert(cs[i].num_instances > 0);
                        }
                    }
                }
            }
        }
    }

    /// Adds `component`, whose component type is `ty`, on the brick at
    /// `brick_index` of the chunk. With no type it is left out. A type that
    /// is not among the world's component types is refused, and the chunk
    /// stays as it was. Otherwise the type's position is counted among the
    /// runs, the brick is recorded, and where the type has a data struct the
    /// component is kept for that struct to be written.
    pub fn record_component(
        &mut self,
        global_data: &BrdbSchemaGlobalData,
        brick_index: u32,
        ty: Option<&str>,
        component: Box<dyn BrdbComponent>,
    ) -> (r: Result<(), BrdbWorldError>)
        requires
            expand(old(self).component_type_counters@).len() < u32::MAX,
            name_table(global_data.component_type_names).len() <= u32::MAX,
        ensures
            runs_ok(old(self).component_type_counters@) ==> runs_ok(final(self).component_type_counters@),
            expand(old(self).component_type_counters@).len() == old(self).component_brick_indices@.len()
                ==> expand(final(self).component_type_counters@).len()
                == final(self).component_brick_indices@.len(),
            final(self).joint_brick_indices == old(self).joint_brick_indices,
            final(self).joint_entity_references == old(self).joint_entity_references,
            final(self).microchip_brick_indices == old(self).microchip_brick_indices,
            final(self).microchip_brick_grid_references == old(self).microchip_brick_grid_references,
            match ty {
                None => r is Ok && *final(self) == *old(self),
                Some(t) => match first_index(name_table(global_data.component_type_names), t@) {
                    None => {
                        &&& r matches Err(BrdbWorldError::UnregisteredComponentType(n)) && n@ == t@
                        &&& *final(self) == *old(self)
                    },
                    Some(k) => {
                        &&& r is Ok
                        &&& expand(final(self).component_type_counters@) == expand(
                            old(self).component_type_counters@,
                        ).push(k as u32)
                        &&& final(self).component_brick_indices@ == old(
                            self,
                        ).component_brick_indices@.push(brick_index)
                        &&& final(self).unwritten_struct_data@ == if struct_name_of(*global_data, t@) is Some {
                            old(self).unwritten_struct_data@.push(component)
                        } else {
                            old(self).unwritten_struct_data@
                        }
                    },
                },
            },
    {
        let ty = match ty {
            Some(t) => t,
            None => {
                return Ok(());
            },
        };
        let k = match table_index_of(&global_data.component_type_names, ty) {
            Some(k) => k,
            None => {
                return Err(BrdbWorldError::UnregisteredComponentType(ty.to_owned()));
            },
        };
        proof {
            crate::global_data::lemma_first_index(name_table(global_data.component_type_names), ty@);
        }
        let k32 = k as u32;
        self.count_type(k32);
        self.component_brick_indices.push(brick_index);
        if global_data.get_struct_name(ty).is_some() {
            self.unwritten_struct_data.push(component);
        }
        Ok(())
    }

    /// Adds `component`, on the brick at `brick_index` of the chunk, by the
    /// component type that it reports (see [`ComponentChunkSoA::record_component`]).
    /// Whatever type it reports, the runs stay well formed and count the
    /// recorded bricks.
    pub fn add_component(
        &mut self,
        global_data: &BrdbSchemaGlobalData,
        brick_index: u32,
        component: Box<dyn BrdbComponent>,
    ) -> (r: Result<(), BrdbWorldError>)
        requires
            expand(old(self).component_type_counters@).len() < u32::MAX,
            name_table(global_data.component_type_names).len() <= u32::MAX,
        ensures
            runs_ok(old(self).component_type_counters@) ==> runs_ok(final(self).component_type_counters@),
            expand(old(self).component_type_counters@).len() == old(self).component_brick_indices@.len()
                ==> expand(final(self).component_type_counters@).len()
                == final(self).component_brick_indices@.len(),
            final(self).joint_brick_indices == old(self).joint_brick_indices,
            final(self).joint_entity_references == old(self).joint_entity_references,
            final(self).microchip_brick_indices == old(self).microchip_brick_indices,
            final(self).microchip_brick_grid_references == old(self).microchip_brick_grid_references,
            r matches Err(e) ==> e is UnregisteredComponentType && *final(self) == *old(self),
    {
        let ty = component.component_type();
        match ty {
            Some(t) => self.record_component(global_data, brick_index, Some(t.as_str()), component),
            None => self.record_component(global_data, brick_index, None, component),
        }
    }
}

} // verus!
