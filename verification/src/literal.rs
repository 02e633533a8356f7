//! Components and entities given by a type name and a list of property
//! values, written by the schema of their type.
use vstd::prelude::*;

use crate::brick::BrdbComponent;
use crate::model::{BString, IntVector};
use crate::value::ValueModel;

verus! {

/// A component of the named type with the given property values.
pub struct LiteralComponent {
    pub component_name: BString,
    /// The property values by name; where a name is given twice, the first
    /// is the one that is found.
    pub data: Vec<(String, ValueModel)>,
}

impl LiteralComponent {
    /// A component of the named type with no property values.
    pub fn new(component_name: BString) -> (r: LiteralComponent)
        ensures
            r.component_name == component_name,
            r.data@.len() == 0,
    {
        LiteralComponent { component_name, data: Vec::new() }
    }

    /// This component with the property values `data`.
    pub fn with_data(self, data: Vec<(String, ValueModel)>) -> (r: LiteralComponent)
        ensures
            r.component_name == self.component_name,
            r.data@ == data@,
    {
        LiteralComponent { component_name: self.component_name, data }
    }

    /// The component as a struct value, its properties in the order given.
    pub fn to_value(self) -> (v: ValueModel)
        ensures
            v matches ValueModel::Struct(fs) && fs@ == self.data@,
    {
        ValueModel::Struct(self.data)
    }
}

impl BrdbComponent for LiteralComponent {
    fn component_type(&self) -> Option<BString> {
        Some(self.component_name.clone())
    }
}

/// Whether `v` is the struct value of the vector `iv`: its `X`, `Y` and `Z`.
pub open spec fn is_int_vector(v: ValueModel, iv: IntVector) -> bool {
    &&& v matches ValueModel::Struct(fs)
    &&& fs@.len() == 3
    &&& fs@[0].0@ == "X"@ && fs@[0].1 == ValueModel::I32(iv.x)
    &&& fs@[1].0@ == "Y"@ && fs@[1].1 == ValueModel::I32(iv.y)
    &&& fs@[2].0@ == "Z"@ && fs@[2].1 == ValueModel::I32(iv.z)
}

/// The struct value of an integer vector.
pub fn int_vector_value(iv: IntVector) -> (v: ValueModel)
    ensures
        is_int_vector(v, iv),
{
    let mut fs: Vec<(String, ValueModel)> = Vec::new();
    fs.push(("X".to_owned(), ValueModel::I32(iv.x)));
    fs.push(("Y".to_owned(), ValueModel::I32(iv.y)));
    fs.push(("Z".to_owned(), ValueModel::I32(iv.z)));
    ValueModel::Struct(fs)
}

/// The entity of a dynamic brick grid: no property values.
pub fn dynamic_grid_entity() -> (c: LiteralComponent)
    ensures
        c.component_name@ == "Entity_DynamicBrickGrid"@,
        c.data@.len() == 0,
{
    LiteralComponent::new(BString::str("Entity_DynamicBrickGrid"))
}

/// The entity of a microchip's inner grid: whether it is collapsed, and the
/// center and half size of its plane in grid units.
pub fn microchip_grid_entity(collapsed: bool, plane_center: IntVector, plane_extent: IntVector) -> (c: LiteralComponent)
    ensures
        c.component_name@ == "Entity_MicrochipDynamicBrickGrid"@,
        c.data@.len() == 3,
        c.data@[0].0@ == "bCollapsed"@ && c.data@[0].1 == ValueModel::Bool(collapsed),
        c.data@[1].0@ == "PlaneCenter"@ && is_int_vector(c.data@[1].1, plane_center),
        c.data@[2].0@ == "PlaneExtent"@ && is_int_vector(c.data@[2].1, plane_extent),
{
    let mut data: Vec<(String, ValueModel)> = Vec::new();
    data.push(("bCollapsed".to_owned(), ValueModel::Bool(collapsed)));
    data.push(("PlaneCenter".to_owned(), int_vector_value(plane_center)));
    data.push(("PlaneExtent".to_owned(), int_vector_value(plane_extent)));
    LiteralComponent::new(BString::str("Entity_MicrochipDynamicBrickGrid")).with_data(data)
}

} // verus!
