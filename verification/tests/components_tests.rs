use brdb::brick::BrdbComponent;
use brdb::components::ComponentChunkSoA;
use brdb::errors::BrdbWorldError;
use brdb::global_data::{global_data_of, GlobalDataModel};
use brdb::model::BString;

struct Typed(Option<&'static str>);

impl BrdbComponent for Typed {
    fn component_type(&self) -> Option<BString> {
        self.0.map(BString::str)
    }
}

fn names_of(v: &[&str]) -> Vec<String> {
    v.iter().map(|s| s.to_string()).collect()
}

fn chunk_model() -> GlobalDataModel {
    GlobalDataModel {
        entity_type_names: Vec::new(),
        entity_data_class_names: None,
        basic_brick_asset_names: Vec::new(),
        procedural_brick_asset_names: Vec::new(),
        material_asset_names: Vec::new(),
        component_type_names: names_of(&["Comp_A", "Comp_B"]),
        component_data_struct_names: names_of(&["S_A", "None"]),
        component_wire_port_names: Vec::new(),
        external_asset_references: Vec::new(),
        global_grid_entity_type_index: None,
    }
}

fn runs(c: &ComponentChunkSoA) -> Vec<(u32, u32)> {
    c.component_type_counters.iter().map(|r| (r.type_index, r.num_instances)).collect()
}

#[test]
fn components_are_counted_in_runs_of_one_type() {
    let g = global_data_of(&chunk_model());
    let mut c = ComponentChunkSoA::new();
    c.add_component(&g, 0, Box::new(Typed(Some("Comp_A")))).unwrap();
    c.add_component(&g, 0, Box::new(Typed(Some("Comp_A")))).unwrap();
    c.add_component(&g, 1, Box::new(Typed(Some("Comp_B")))).unwrap();
    c.add_component(&g, 2, Box::new(Typed(Some("Comp_A")))).unwrap();
    assert_eq!(runs(&c), vec![(0, 2), (1, 1), (0, 1)]);
    assert_eq!(c.component_brick_indices, vec![0, 0, 1, 2]);
    // Only the type with a data struct keeps its component for writing.
    assert_eq!(c.unwritten_struct_data.len(), 3);
}

#[test]
fn a_component_without_type_is_left_out() {
    let g = global_data_of(&chunk_model());
    let mut c = ComponentChunkSoA::new();
    c.add_component(&g, 4, Box::new(Typed(None))).unwrap();
    assert!(c.component_type_counters.is_empty());
    assert!(c.component_brick_indices.is_empty());
    assert!(c.unwritten_struct_data.is_empty());
}

#[test]
fn an_unregistered_component_type_is_refused() {
    let g = global_data_of(&chunk_model());
    let mut c = ComponentChunkSoA::new();
    let r = c.add_component(&g, 4, Box::new(Typed(Some("Comp_Z"))));
    assert!(matches!(r, Err(BrdbWorldError::UnregisteredComponentType(n)) if n == "Comp_Z"));
    assert!(c.component_type_counters.is_empty());
    assert!(c.component_brick_indices.is_empty());
}

#[test]
fn recording_a_component_by_its_reported_type() {
    let g = global_data_of(&chunk_model());
    assert_eq!(g.component_type_count(), 2);
    let mut c = ComponentChunkSoA::new();
    c.record_component(&g, 3, Some("Comp_B"), Box::new(Typed(Some("Comp_B")))).unwrap();
    c.record_component(&g, 3, Some("Comp_B"), Box::new(Typed(Some("Comp_B")))).unwrap();
    assert_eq!(runs(&c), vec![(1, 2)]);
    assert_eq!(c.component_brick_indices, vec![3, 3]);
    // Comp_B has no data struct.
    assert!(c.unwritten_struct_data.is_empty());
    c.record_component(&g, 5, None, Box::new(Typed(None))).unwrap();
    assert_eq!(c.component_brick_indices, vec![3, 3]);
    let r = c.record_component(&g, 6, Some("Nope"), Box::new(Typed(Some("Nope"))));
    assert!(matches!(r, Err(BrdbWorldError::UnregisteredComponentType(n)) if n == "Nope"));
    assert_eq!(c.component_brick_indices, vec![3, 3]);
}
