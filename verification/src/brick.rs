//! A brick of a world: its kind, place, orientation, look and components.
use vstd::prelude::*;

use crate::model::{BString, BrickSize, BrickType, Collision, Color, Direction, Position, Rotation};

verus! {

/// A component that a brick carries, for users of the library to implement.
pub trait BrdbComponent {
    /// The component type it is saved as, if any.
    fn component_type(&self) -> Option<BString>;
}

/// Length and elements of a list with one more at the end.
proof fn lemma_components_push<A>(s: Seq<A>, c: A)
    ensures
        s.push(c).len() == s.len() + 1,
        s.push(c)[s.len() as int] == c,
        forall|i: int| 0 <= i < s.len() ==> #[trigger] s.push(c)[i] == s[i],
{
    vstd::seq::axiom_seq_push_len(s, c);
    vstd::seq::axiom_seq_push_index_same(s, c, s.len() as int);
    assert forall|i: int| 0 <= i < s.len() implies #[trigger] s.push(c)[i] == s[i] by {
        vstd::seq::axiom_seq_push_index_different(s, c, i);
    }
}

/// Length and elements of two lists one after the other.
proof fn lemma_components_add<A>(s: Seq<A>, t: Seq<A>)
    ensures
        (s + t).len() == s.len() + t.len(),
        forall|i: int| 0 <= i < s.len() ==> #[trigger] (s + t)[i] == s[i],
        forall|i: int| 0 <= i < t.len() ==> (s + t)[s.len() + i] == #[trigger] t[i],
{
    vstd::seq::axiom_seq_add_len(s, t);
    assert forall|i: int| 0 <= i < s.len() implies #[trigger] (s + t)[i] == s[i] by {
        vstd::seq::axiom_seq_add_index1(s, t, i);
    }
    assert forall|i: int| 0 <= i < t.len() implies (s + t)[s.len() + i] == #[trigger] t[i] by {
        vstd::seq::axiom_seq_add_index2(s, t, s.len() + i);
    }
}

/// A brick.
pub struct Brick {
    /// An internal id for linking bricks while saving.
    pub id: Option<usize>,
    pub asset: BrickType,
    pub owner_index: Option<usize>,
    /// Where unset, the current owner is saved as the original owner too.
    pub original_owner_index: Option<usize>,
    pub position: Position,
    pub rotation: Rotation,
    pub direction: Direction,
    pub collision: Collision,
    pub visible: bool,
    pub color: Color,
    pub material: BString,
    pub material_intensity: u8,
    pub components: Vec<Box<dyn BrdbComponent>>,
}

/// `b2` is `b` with a different id.
pub open spec fn same_but_id(b: Brick, b2: Brick) -> bool {
    &&& b2.asset == b.asset
    &&& b2.owner_index == b.owner_index
    &&& b2.original_owner_index == b.original_owner_index
    &&& b2.position == b.position
    &&& b2.rotation == b.rotation
    &&& b2.direction == b.direction
    &&& b2.collision == b.collision
    &&& b2.visible == b.visible
    &&& b2.color == b.color
    &&& b2.material == b.material
    &&& b2.material_intensity == b.material_intensity
    &&& b2.components == b.components
}

/// `b2` is `b` with other components.
pub open spec fn same_but_components(b: Brick, b2: Brick) -> bool {
    &&& b2.id == b.id
    &&& b2.asset == b.asset
    &&& b2.owner_index == b.owner_index
    &&& b2.original_owner_index == b.original_owner_index
    &&& b2.position == b.position
    &&& b2.rotation == b.rotation
    &&& b2.direction == b.direction
    &&& b2.collision == b.collision
    &&& b2.visible == b.visible
    &&& b2.color == b.color
    &&& b2.material == b.material
    &&& b2.material_intensity == b.material_intensity
}

/// The half extents of a brick in grid units: the size of a procedural
/// brick; none for a basic brick, whose size is not carried here, so that it
/// is a point at its position.
pub open spec fn half_extent(asset: BrickType) -> (int, int, int) {
    match asset {
        BrickType::Procedural { size, .. } => (size.x as int, size.y as int, size.z as int),
        BrickType::Basic(_) => (0, 0, 0),
    }
}

impl Default for Brick {
    /// A white 5x5x6 default brick of plastic at the origin, facing up, with
    /// everything colliding, material intensity 5 and no id, owner or
    /// component.
    fn default() -> (b: Brick)
        ensures
            b.id is None,
            b.asset matches BrickType::Procedural { asset, size } && asset@ == "PB_DefaultBrick"@ && size
                == (BrickSize { x: 5, y: 5, z: 6 }),
            b.owner_index is None,
            b.original_owner_index is None,
            b.position == (Position { x: 0, y: 0, z: 0 }),
            b.rotation == Rotation::Deg0,
            b.direction == Direction::ZPositive,
            b.collision == (Collision {
                player: true,
                player1: None,
                player2: None,
                player3: None,
                weapon: true,
                interact: true,
                tool: true,
                physics: true,
            }),
            b.visible,
            b.color == (Color { r: 255, g: 255, b: 255 }),
            b.material@ == "BMC_Plastic"@,
            b.material_intensity == 5,
            b.components@.len() == 0,
    {
        Brick {
            id: None,
            asset: BrickType::Procedural {
                asset: BString::str("PB_DefaultBrick"),
                size: BrickSize { x: 5, y: 5, z: 6 },
            },
            owner_index: None,
            original_owner_index: None,
            position: Position { x: 0, y: 0, z: 0 },
            rotation: Rotation::default(),
            direction: Direction::default(),
            collision: Collision::default(),
            visible: true,
            color: Color::default(),
            material_intensity: 5,
            material: BString::str("BMC_Plastic"),
            components: Vec::new(),
        }
    }
}

impl Brick {
    /// The id of the brick, if it has one.
    pub fn get_id(&self) -> (r: Option<usize>)
        ensures
            r == self.id,
    {
        self.id
    }

    /// This brick with an id: the one it has, or else the one that `next_id`
    /// hands out.
    pub fn with_id<F: FnOnce() -> usize>(self, next_id: F) -> (r: Brick)
        requires
            call_requires(next_id, ()),
        ensures
            same_but_id(self, r),
            self.id is Some ==> r == self,
            self.id is None ==> exists|v: usize| call_ensures(next_id, (), v) && r.id == Some(v),
    {
        let mut b = self;
        if b.id.is_some() {
            return b;
        }
        let v = next_id();
        b.id = Some(v);
        b
    }

    /// This brick with an id (see [`Brick::with_id`]), and that id.
    pub fn with_id_split<F: FnOnce() -> usize>(self, next_id: F) -> (r: (Brick, usize))
        requires
            call_requires(next_id, ()),
        ensures
            same_but_id(self, r.0),
            r.0.id == Some(r.1),
            self.id matches Some(i) ==> r.1 == i && r.0 == self,
            self.id is None ==> call_ensures(next_id, (), r.1),
    {
        let mut b = self;
        if let Some(id) = b.id {
            return (b, id);
        }
        let id = next_id();
        b.id = Some(id);
        (b, id)
    }

    /// Gives this brick an id if it has none (see [`Brick::with_id`]) and
    /// returns its id.
    pub fn add_id<F: FnOnce() -> usize>(&mut self, next_id: F) -> (r: usize)
        requires
            call_requires(next_id, ()),
        ensures
            same_but_id(*old(self), *final(self)),
            final(self).id == Some(r),
            old(self).id matches Some(i) ==> r == i,
            old(self).id is Some ==> *final(self) == *old(self),
            old(self).id is None ==> call_ensures(next_id, (), r),
    {
        if let Some(id) = self.id {
            return id;
        }
        let id = next_id();
        self.id = Some(id);
        id
    }

    /// Whether this brick is the outer shell of a microchip.
    pub fn is_microchip_host(&self) -> (r: bool)
        ensures
            r == (self.asset matches BrickType::Basic(a) && a@ == "B_1x1_Microchip"@),
    {
        match &self.asset {
            BrickType::Basic(a) => a.is("B_1x1_Microchip"),
            _ => false,
        }
    }

    /// Adds a component to the brick, after those it has.
    pub fn add_component_box(&mut self, component: Box<dyn BrdbComponent>)
        ensures
            same_but_components(*old(self), *final(self)),
            final(self).components@ == old(self).components@.push(component),
            final(self).components@.len() == old(self).components@.len() + 1,
            forall|i: int|
                0 <= i < old(self).components@.len() ==> #[trigger] final(self).components@[i]
                    == old(self).components@[i],
    {
        proof {
            lemma_components_push(self.components@, component);
        }
        self.components.push(component);
    }

    /// Adds a component to the brick, after those it has (see
    /// [`Brick::add_component_box`]).
    pub fn add_component<T: BrdbComponent + 'static>(&mut self, component: T)
        ensures
            same_but_components(*old(self), *final(self)),
            final(self).components@.len() == old(self).components@.len() + 1,
            forall|i: int|
                0 <= i < old(self).components@.len() ==> #[trigger] final(self).components@[i]
                    == old(self).components@[i],
    {
        let b: Box<dyn BrdbComponent> = Box::new(component);
        self.add_component_box(b);
    }

    /// This brick with one more component, after those it has (see
    /// [`Brick::with_component_box`]).
    pub fn with_component<T: BrdbComponent + 'static>(self, component: T) -> (r: Brick)
        ensures
            same_but_components(self, r),
            r.components@.len() == self.components@.len() + 1,
            forall|i: int| 0 <= i < self.components@.len() ==> #[trigger] r.components@[i] == self.components@[i],
    {
        let b: Box<dyn BrdbComponent> = Box::new(component);
        self.with_component_box(b)
    }

    /// Adds several components to the brick, in order, after those it has.
    pub fn add_components(&mut self, components: Vec<Box<dyn BrdbComponent>>)
        ensures
            same_but_components(*old(self), *final(self)),
            final(self).components@ == old(self).components@ + components@,
            final(self).components@.len() == old(self).components@.len() + components@.len(),
            forall|i: int|
                0 <= i < old(self).components@.len() ==> #[trigger] final(self).components@[i]
                    == old(self).components@[i],
            forall|i: int|
                0 <= i < components@.len() ==> final(self).components@[old(self).components@.len() + i]
                    == #[trigger] components@[i],
    {
        proof {
            lemma_components_add(self.components@, components@);
        }
        let mut more = components;
        self.components.append(&mut more);
    }

    /// This brick with one more component, after those it has.
    pub fn with_component_box(self, component: Box<dyn BrdbComponent>) -> (r: Brick)
        ensures
            same_but_components(self, r),
            r.components@ == self.components@.push(component),
            r.components@.len() == self.components@.len() + 1,
            forall|i: int| 0 <= i < self.components@.len() ==> #[trigger] r.components@[i] == self.components@[i],
    {
        proof {
            lemma_components_push(self.components@, component);
        }
        let mut b = self;
        b.components.push(component);
        b
    }

    /// This brick with more components, in order, after those it has.
    pub fn with_components(self, components: Vec<Box<dyn BrdbComponent>>) -> (r: Brick)
        ensures
            same_but_components(self, r),
            r.components@ == self.components@ + components@,
            r.components@.len() == self.components@.len() + components@.len(),
            forall|i: int| 0 <= i < self.components@.len() ==> #[trigger] r.components@[i] == self.components@[i],
            forall|i: int|
                0 <= i < components@.len() ==> r.components@[self.components@.len() + i]
                    == #[trigger] components@[i],
    {
        proof {
            lemma_components_add(self.components@, components@);
        }
        let mut b = self;
        let mut more = components;
        b.components.append(&mut more);
        b
    }

    /// Sets the material of the brick.
    pub fn set_material(&mut self, material: BString)
        ensures
            final(self).material == material,
            final(self).id == old(self).id,
            final(self).asset == old(self).asset,
            final(self).position == old(self).position,
            final(self).color == old(self).color,
            final(self).material_intensity == old(self).material_intensity,
            final(self).components == old(self).components,
    {
        self.material = material;
    }

    /// This brick with another material.
    pub fn with_material(self, material: BString) -> (r: Brick)
        ensures
            r.material == material,
            r.id == self.id,
            r.asset == self.asset,
            r.position == self.position,
            r.color == self.color,
            r.material_intensity == self.material_intensity,
            r.components == self.components,
    {
        let mut b = self;
        b.set_material(material);
        b
    }

    /// The bounds of this brick in grid units, as its lowest and highest
    /// corners: its position less and plus its half extents (see
    /// [`half_extent`]); a basic brick is a point at its position. Rotation
    /// is not applied.
    pub fn local_bounds(&self) -> (r: (Position, Position))
        requires
            i32::MIN <= self.position.x - half_extent(self.asset).0,
            self.position.x + half_extent(self.asset).0 <= i32::MAX,
            i32::MIN <= self.position.y - half_extent(self.asset).1,
            self.position.y + half_extent(self.asset).1 <= i32::MAX,
            i32::MIN <= self.position.z - half_extent(self.asset).2,
            self.position.z + half_extent(self.asset).2 <= i32::MAX,
        ensures
            r.0.x == self.position.x - half_extent(self.asset).0,
            r.0.y == self.position.y - half_extent(self.asset).1,
            r.0.z == self.position.z - half_extent(self.asset).2,
            r.1.x == self.position.x + half_extent(self.asset).0,
            r.1.y == self.position.y + half_extent(self.asset).1,
            r.1.z == self.position.z + half_extent(self.asset).2,
    {
        let half = match &self.asset {
            BrickType::Procedural { size, .. } => Position {
                x: size.x as i32,
                y: size.y as i32,
                z: size.z as i32,
            },
            BrickType::Basic(_) => Position { x: 0, y: 0, z: 0 },
        };
        let p = self.position;
        (
            Position { x: p.x - half.x, y: p.y - half.y, z: p.z - half.z },
            Position { x: p.x + half.x, y: p.y + half.y, z: p.z + half.z },
        )
    }
}

} // verus!
