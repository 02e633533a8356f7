use brdb::brick::Brick;
use brdb::errors::BrdbSchemaError;
use brdb::global_data::BrdbSchemaGlobalData;
use brdb::model::{BString, BrickSize, BrickType, Collision, Color, Direction, Position, Rotation};

fn brick(asset: BrickType, material: &str) -> Brick {
    Brick {
        id: None,
        asset,
        owner_index: None,
        original_owner_index: None,
        position: Position { x: 0, y: 0, z: 0 },
        rotation: Rotation::Deg0,
        direction: Direction::ZPositive,
        collision: Collision::default(),
        visible: true,
        color: Color::default(),
        material: BString::str(material),
        material_intensity: 5,
        components: Vec::new(),
    }
}

#[test]
fn default_global_data_is_empty() {
    let g = BrdbSchemaGlobalData::default();
    assert!(g.entity_type_names.is_empty());
    assert!(g.material_asset_names.is_empty());
    assert!(g.component_data_struct_names.is_empty());
    assert!(g.external_asset_types.is_empty());
    assert!(g.external_asset_references.is_empty());
    assert_eq!(g.global_grid_entity_type_index, -1);
    assert_eq!(g.proc_brick_starting_index(), 0);
}

#[test]
fn brick_meta_adds_each_name_once() {
    let mut g = BrdbSchemaGlobalData::default();
    g.add_brick_meta(&brick(BrickType::str("B_Jar"), "BMC_Plastic"));
    g.add_brick_meta(&brick(BrickType::str("B_Jar"), "BMC_Glow"));
    g.add_brick_meta(&brick(
        BrickType::Procedural { asset: BString::str("PB_DefaultBrick"), size: BrickSize::new(5, 5, 6) },
        "BMC_Plastic",
    ));
    let mats: Vec<&str> = g.material_asset_names.iter().map(|s| s.as_str()).collect();
    assert_eq!(mats, vec!["BMC_Plastic", "BMC_Glow"]);
    assert_eq!(g.basic_brick_asset_names.len(), 1);
    assert_eq!(g.procedural_brick_asset_names.len(), 1);
    assert_eq!(g.proc_brick_starting_index(), 1);
    assert_eq!(g.material_asset_by_index(1).unwrap(), BString::str("BMC_Glow"));
    assert_eq!(g.basic_brick_asset_by_index(0).unwrap(), BString::str("B_Jar"));
    assert_eq!(
        g.procedural_brick_asset_by_index(0).unwrap(),
        BString::str("PB_DefaultBrick")
    );
}

#[test]
fn asset_lookup_past_the_end_is_unknown_asset() {
    let g = BrdbSchemaGlobalData::default();
    assert_eq!(
        g.basic_brick_asset_by_index(3).unwrap_err(),
        BrdbSchemaError::UnknownAsset("basic_brick_asset_name".to_string(), 3)
    );
    assert_eq!(
        g.procedural_brick_asset_by_index(0).unwrap_err(),
        BrdbSchemaError::UnknownAsset("procedural_brick_asset_name".to_string(), 0)
    );
    assert_eq!(
        g.material_asset_by_index(2).unwrap_err(),
        BrdbSchemaError::UnknownAsset("material_asset_name".to_string(), 2)
    );
}

#[test]
fn component_struct_names_skip_none() {
    let mut g = BrdbSchemaGlobalData::default();
    g.component_type_names.insert("Component_Light".to_string());
    g.component_type_names.insert("Component_Empty".to_string());
    g.component_type_names.insert("Component_Extra".to_string());
    g.component_data_struct_names = vec!["BrickComponentData_Light".to_string(), "None".to_string()];
    assert_eq!(g.get_struct_name("Component_Light"), Some("BrickComponentData_Light"));
    assert_eq!(g.get_struct_name("Component_Empty"), None);
    // A type past the end of the struct-name list has none.
    assert_eq!(g.get_struct_name("Component_Extra"), None);
    assert_eq!(g.get_struct_name("Component_Unknown"), None);
    assert_eq!(g.get_component_type_index("Component_Extra"), Some(2));
    assert_eq!(g.get_component_type_index("Component_Unknown"), None);
    assert!(g.has_component_type("Component_Empty"));
    assert!(!g.has_component_type("Component_Unknown"));
}

#[test]
fn wire_ports_are_found_by_position() {
    let mut g = BrdbSchemaGlobalData::default();
    g.component_wire_port_names.insert("Input".to_string());
    g.component_wire_port_names.insert("Output".to_string());
    assert_eq!(g.get_port_index("Output"), Some(1));
    assert_eq!(g.get_port_index("Missing"), None);
}

#[test]
fn entity_types_keep_class_names_parallel() {
    let mut g = BrdbSchemaGlobalData::default();
    g.add_entity_type("Entity_GlobalBrickGrid");
    g.add_entity_type("Entity_Custom");
    g.add_entity_type("Entity_GlobalBrickGrid");
    g.add_entity_type_with_class("Entity_Other", "OtherClass");
    g.add_entity_type_with_class("Entity_Other", "Ignored");
    assert_eq!(g.entity_type_names.len(), 3);
    assert_eq!(g.entity_data_class_names.len(), 3);
    assert_eq!(g.get_entity_class_name("Entity_GlobalBrickGrid"), Some("BP_BrickGrid_Global_C"));
    // An unknown type is its own class name.
    assert_eq!(g.get_entity_class_name("Entity_Custom"), Some("Entity_Custom"));
    assert_eq!(g.get_entity_class_name("Entity_Other"), Some("OtherClass"));
    assert_eq!(g.get_entity_class_name("Entity_Missing"), None);
}

fn strings(v: &[&str]) -> Vec<String> {
    v.iter().map(|s| s.to_string()).collect()
}

fn model() -> brdb::global_data::GlobalDataModel {
    brdb::global_data::GlobalDataModel {
        entity_type_names: strings(&["Entity_GlobalBrickGrid", "Entity_Mystery", "Entity_GlobalBrickGrid"]),
        entity_data_class_names: None,
        basic_brick_asset_names: strings(&["B_Jar", "B_Cone", "B_Jar"]),
        procedural_brick_asset_names: strings(&["PB_DefaultBrick"]),
        material_asset_names: strings(&["BMC_Plastic", "BMC_Glow", "BMC_Plastic"]),
        component_type_names: strings(&["Component_A"]),
        component_data_struct_names: strings(&["S_A", "S_A"]),
        component_wire_port_names: strings(&["In", "Out", "In"]),
        external_asset_references: vec![
            ("Class".to_string(), "A".to_string()),
            ("Class".to_string(), "A".to_string()),
            ("Sound".to_string(), "B".to_string()),
        ],
        global_grid_entity_type_index: None,
    }
}

#[test]
fn global_data_of_keeps_first_order_without_repeats() {
    let g = brdb::global_data::global_data_of(&model());
    let names: Vec<&str> = g.basic_brick_asset_names.iter().map(|s| s.as_str()).collect();
    assert_eq!(names, vec!["B_Jar", "B_Cone"]);
    let mats: Vec<&str> = g.material_asset_names.iter().map(|s| s.as_str()).collect();
    assert_eq!(mats, vec!["BMC_Plastic", "BMC_Glow"]);
    let ports: Vec<&str> = g.component_wire_port_names.iter().map(|s| s.as_str()).collect();
    assert_eq!(ports, vec!["In", "Out"]);
    assert_eq!(g.entity_type_names.len(), 2);
    assert_eq!(g.external_asset_references.len(), 2);
    assert_eq!(
        g.external_asset_references.get_index(1),
        Some(&("Sound".to_string(), "B".to_string()))
    );
    // struct names are a plain list and keep repeats
    assert_eq!(g.component_data_struct_names, strings(&["S_A", "S_A"]));
    assert_eq!(g.proc_brick_starting_index(), 2);
}

#[test]
fn global_data_of_falls_back_on_known_class_names() {
    let g = brdb::global_data::global_data_of(&model());
    let classes: Vec<&str> = g.entity_data_class_names.iter().map(|s| s.as_str()).collect();
    assert_eq!(classes, vec!["BP_BrickGrid_Global_C", "Unknown"]);
    assert_eq!(g.global_grid_entity_type_index, -1);
    assert!(g.external_asset_types.contains("Class"));
    assert!(g.external_asset_types.contains("Sound"));
}

#[test]
fn global_data_of_takes_given_class_names_and_grid_index() {
    let mut m = model();
    m.entity_data_class_names = Some(strings(&["C1", "C2", "C1"]));
    m.global_grid_entity_type_index = Some(7);
    let g = brdb::global_data::global_data_of(&m);
    let classes: Vec<&str> = g.entity_data_class_names.iter().map(|s| s.as_str()).collect();
    assert_eq!(classes, vec!["C1", "C2"]);
    assert_eq!(g.global_grid_entity_type_index, 7);
}
