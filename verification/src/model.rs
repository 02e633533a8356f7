//! The plain value types of a world: names, vectors, colors, brick kinds and
//! sizes, orientations and counters.
use vstd::prelude::*;

use crate::pending::str_chars;

verus! {

/// Whether two strings hold the same characters.
pub fn str_eq(a: &str, b: &str) -> (r: bool)
    ensures
        r == (a@ == b@),
{
    let ac = str_chars(a);
    let bc = str_chars(b);
    if ac.len() != bc.len() {
        return false;
    }
    let mut i: usize = 0;
    while i < ac.len()
        invariant
            0 <= i <= ac@.len(),
            ac@.len() == bc@.len(),
            ac@ == a@,
            bc@ == b@,
            forall|k: int| 0 <= k < i ==> ac@[k] == bc@[k],
        decreases ac@.len() - i,
    {
        if ac[i] != bc[i] {
            return false;
        }
        i = i + 1;
    }
    assert(ac@ =~= bc@);
    true
}

/// A name of an asset, a component, a struct or a port.
#[derive(Clone, Debug, PartialEq, Eq, Hash, PartialOrd, Ord, Default)]
pub struct BString {
    s: String,
}

impl View for BString {
    type V = Seq<char>;

    closed spec fn view(&self) -> Seq<char> {
        self.s@
    }
}

impl BString {
    /// The name holding the characters of `s`.
    pub fn str(s: &str) -> (r: BString)
        ensures
            r@ == s@,
    {
        BString { s: s.to_owned() }
    }

    /// The characters of this name.
    pub fn as_str(&self) -> (r: &str)
        ensures
            r@ == self@,
    {
        self.s.as_str()
    }

    /// Whether this name holds exactly the characters of `s`.
    pub fn is(&self, s: &str) -> (r: bool)
        ensures
            r == (self@ == s@),
    {
        str_eq(self.s.as_str(), s)
    }
}

/// A position in grid units.
#[derive(Clone, Copy, Debug, Default, PartialEq, Eq, Hash)]
pub struct Position {
    pub x: i32,
    pub y: i32,
    pub z: i32,
}

/// A vector of three 32-bit integers.
#[derive(Clone, Copy, Debug, Default, PartialEq, Eq)]
pub struct IntVector {
    pub x: i32,
    pub y: i32,
    pub z: i32,
}

impl IntVector {
    /// One unit up.
    pub fn up() -> (r: IntVector)
        ensures
            r == (IntVector { x: 0, y: 0, z: 1 }),
    {
        IntVector { x: 0, y: 0, z: 1 }
    }

    /// One unit down.
    pub fn down() -> (r: IntVector)
        ensures
            r == (IntVector { x: 0, y: 0, z: -1i32 }),
    {
        IntVector { x: 0, y: 0, z: -1 }
    }

    /// One unit left.
    pub fn left() -> (r: IntVector)
        ensures
            r == (IntVector { x: -1i32, y: 0, z: 0 }),
    {
        IntVector { x: -1, y: 0, z: 0 }
    }

    /// One unit right.
    pub fn right() -> (r: IntVector)
        ensures
            r == (IntVector { x: 1, y: 0, z: 0 }),
    {
        IntVector { x: 1, y: 0, z: 0 }
    }

    /// One unit forward.
    pub fn forward() -> (r: IntVector)
        ensures
            r == (IntVector { x: 0, y: -1i32, z: 0 }),
    {
        IntVector { x: 0, y: -1, z: 0 }
    }

    /// One unit backward.
    pub fn backward() -> (r: IntVector)
        ensures
            r == (IntVector { x: 0, y: 1, z: 0 }),
    {
        IntVector { x: 0, y: 1, z: 0 }
    }

    /// The zero vector.
    pub fn zero() -> (r: IntVector)
        ensures
            r == (IntVector { x: 0, y: 0, z: 0 }),
    {
        IntVector { x: 0, y: 0, z: 0 }
    }

    /// One in each component.
    pub fn one() -> (r: IntVector)
        ensures
            r == (IntVector { x: 1, y: 1, z: 1 }),
    {
        IntVector { x: 1, y: 1, z: 1 }
    }

    pub fn new(x: i32, y: i32, z: i32) -> (r: IntVector)
        ensures
            r == (IntVector { x, y, z }),
    {
        IntVector { x, y, z }
    }

    /// The cross product, where no component overflows.
    pub fn cross(self, other: IntVector) -> (r: IntVector)
        requires
            i32::MIN <= self.y * other.z <= i32::MAX,
            i32::MIN <= self.z * other.y <= i32::MAX,
            i32::MIN <= self.y * other.z - self.z * other.y <= i32::MAX,
            i32::MIN <= self.z * other.x <= i32::MAX,
            i32::MIN <= self.x * other.z <= i32::MAX,
            i32::MIN <= self.z * other.x - self.x * other.z <= i32::MAX,
            i32::MIN <= self.x * other.y <= i32::MAX,
            i32::MIN <= self.y * other.x <= i32::MAX,
            i32::MIN <= self.x * other.y - self.y * other.x <= i32::MAX,
        ensures
            r.x == self.y * other.z - self.z * other.y,
            r.y == self.z * other.x - self.x * other.z,
            r.z == self.x * other.y - self.y * other.x,
    {
        IntVector {
            x: self.y * other.z - self.z * other.y,
            y: self.z * other.x - self.x * other.z,
            z: self.x * other.y - self.y * other.x,
        }
    }
}

/// An RGB color.
#[derive(Clone, Copy, Debug, PartialEq, Eq)]
pub struct Color {
    pub r: u8,
    pub g: u8,
    pub b: u8,
}

impl Color {
    pub fn new(r: u8, g: u8, b: u8) -> (c: Color)
        ensures
            c == (Color { r, g, b }),
    {
        Color { r, g, b }
    }

    /// A gray with all three channels at `value`.
    pub fn monochrome(value: u8) -> (c: Color)
        ensures
            c == (Color { r: value, g: value, b: value }),
    {
        Color { r: value, g: value, b: value }
    }
}

impl Default for Color {
    /// White.
    fn default() -> (c: Color)
        ensures
            c == (Color { r: 255, g: 255, b: 255 }),
    {
        Color { r: 255, g: 255, b: 255 }
    }
}

/// A color as it is saved: RGB and a fourth byte (alpha, or the material
/// intensity of a brick).
#[derive(Clone, Copy, Debug, PartialEq, Eq)]
pub struct SavedBrickColor {
    pub r: u8,
    pub g: u8,
    pub b: u8,
    pub a: u8,
}

impl SavedBrickColor {
    pub fn new(color: Color, alpha: u8) -> (c: SavedBrickColor)
        ensures
            c == (SavedBrickColor { r: color.r, g: color.g, b: color.b, a: alpha }),
    {
        SavedBrickColor { r: color.r, g: color.g, b: color.b, a: alpha }
    }

    /// An opaque color.
    pub fn rgb(r: u8, g: u8, b: u8) -> (c: SavedBrickColor)
        ensures
            c == (SavedBrickColor { r, g, b, a: 255 }),
    {
        SavedBrickColor { r, g, b, a: 255 }
    }

    /// The RGB part.
    pub fn color(&self) -> (c: Color)
        ensures
            c == (Color { r: self.r, g: self.g, b: self.b }),
    {
        Color { r: self.r, g: self.g, b: self.b }
    }

    /// The color of an entity that sets none: opaque white.
    pub fn entity_default() -> (c: SavedBrickColor)
        ensures
            c == (SavedBrickColor { r: 255, g: 255, b: 255, a: 255 }),
    {
        SavedBrickColor { r: 255, g: 255, b: 255, a: 255 }
    }
}

impl Default for SavedBrickColor {
    /// White with a material intensity of 5.
    fn default() -> (c: SavedBrickColor)
        ensures
            c == (SavedBrickColor { r: 255, g: 255, b: 255, a: 5 }),
    {
        SavedBrickColor { r: 255, g: 255, b: 255, a: 5 }
    }
}

/// The size of a procedural brick (half extents in grid units).
#[derive(Clone, Copy, Debug, Default, PartialEq, Eq, Hash)]
pub struct BrickSize {
    pub x: u16,
    pub y: u16,
    pub z: u16,
}

impl BrickSize {
    pub fn new(x: u16, y: u16, z: u16) -> (s: BrickSize)
        ensures
            s == (BrickSize { x, y, z }),
    {
        BrickSize { x, y, z }
    }
}

/// The kind of a brick: a basic asset, or a procedural asset with a size.
#[derive(Clone, Debug, PartialEq, Eq)]
pub enum BrickType {
    Basic(BString),
    Procedural { asset: BString, size: BrickSize },
}

impl BrickType {
    /// The basic brick of the asset named `asset`.
    pub fn str(asset: &str) -> (t: BrickType)
        ensures
            t matches BrickType::Basic(a) && a@ == asset@,
    {
        BrickType::Basic(BString::str(asset))
    }

    pub fn is_procedural(&self) -> (b: bool)
        ensures
            b == (self is Procedural),
    {
        match self {
            BrickType::Procedural { .. } => true,
            _ => false,
        }
    }

    pub fn is_basic(&self) -> (b: bool)
        ensures
            b == (self is Basic),
    {
        match self {
            BrickType::Basic(_) => true,
            _ => false,
        }
    }

    /// The name of the asset.
    pub fn asset(&self) -> (a: &BString)
        ensures
            *a == match self {
                BrickType::Basic(asset) => *asset,
                BrickType::Procedural { asset, .. } => *asset,
            },
    {
        match self {
            BrickType::Basic(asset) => asset,
            BrickType::Procedural { asset, .. } => asset,
        }
    }
}

/// The index of a chunk of a grid.
#[derive(Clone, Copy, Debug, Default, PartialEq, Eq, Hash)]
pub struct ChunkIndex {
    pub x: i16,
    pub y: i16,
    pub z: i16,
}

impl ChunkIndex {
    pub fn new(x: i16, y: i16, z: i16) -> (c: ChunkIndex)
        ensures
            c == (ChunkIndex { x, y, z }),
    {
        ChunkIndex { x, y, z }
    }
}

/// A position relative to the center of its chunk.
#[derive(Clone, Copy, Debug, Default)]
pub struct RelativePosition {
    pub x: i16,
    pub y: i16,
    pub z: i16,
}

/// The axis direction a brick faces.
#[derive(Clone, Copy, Debug, PartialEq, Eq)]
pub enum Direction {
    XPositive,
    XNegative,
    YPositive,
    YNegative,
    ZPositive,
    ZNegative,
    MAX,
}

impl Default for Direction {
    /// Facing up.
    fn default() -> (d: Direction)
        ensures
            d == Direction::ZPositive,
    {
        Direction::ZPositive
    }
}

/// The rotation of a brick about the axis it faces.
#[derive(Clone, Copy, Debug, PartialEq, Eq)]
pub enum Rotation {
    Deg0,
    Deg90,
    Deg180,
    Deg270,
}

impl Default for Rotation {
    fn default() -> (r: Rotation)
        ensures
            r == Rotation::Deg0,
    {
        Rotation::Deg0
    }
}

/// The number of a direction, in the order of declaration.
pub open spec fn direction_index(d: Direction) -> u8 {
    match d {
        Direction::XPositive => 0,
        Direction::XNegative => 1,
        Direction::YPositive => 2,
        Direction::YNegative => 3,
        Direction::ZPositive => 4,
        Direction::ZNegative => 5,
        Direction::MAX => 6,
    }
}

/// The number of a rotation: quarter turns.
pub open spec fn rotation_index(r: Rotation) -> u8 {
    match r {
        Rotation::Deg0 => 0,
        Rotation::Deg90 => 1,
        Rotation::Deg180 => 2,
        Rotation::Deg270 => 3,
    }
}

fn direction_number(d: Direction) -> (n: u8)
    ensures
        n == direction_index(d),
{
    match d {
        Direction::XPositive => 0,
        Direction::XNegative => 1,
        Direction::YPositive => 2,
        Direction::YNegative => 3,
        Direction::ZPositive => 4,
        Direction::ZNegative => 5,
        Direction::MAX => 6,
    }
}

fn rotation_number(r: Rotation) -> (n: u8)
    ensures
        n == rotation_index(r),
{
    match r {
        Rotation::Deg0 => 0,
        Rotation::Deg90 => 1,
        Rotation::Deg180 => 2,
        Rotation::Deg270 => 3,
    }
}

/// The orientation byte: the direction in the bits above the two low bits
/// that hold the rotation.
pub fn orientation_to_byte(dir: Direction, rot: Rotation) -> (b: u8)
    ensures
        b == direction_index(dir) * 4 + rotation_index(rot),
{
    let d = direction_number(dir);
    let r = rotation_number(rot);
    assert(d <= 6 && r <= 3 ==> (d << 2u8) | r == d * 4 + r) by (bit_vector);
    (d << 2u8) | r
}

/// The direction and rotation of an orientation byte; the direction number
/// is taken modulo 6.
pub fn byte_to_orientation(orientation: u8) -> (res: (Direction, Rotation))
    ensures
        direction_index(res.0) == (orientation / 4) % 6,
        rotation_index(res.1) == orientation % 4,
{
    assert(orientation >> 2u8 == orientation / 4) by (bit_vector);
    assert(orientation & 3u8 == orientation % 4) by (bit_vector);
    let dir = match (orientation >> 2u8) % 6 {
        0 => Direction::XPositive,
        1 => Direction::XNegative,
        2 => Direction::YPositive,
        3 => Direction::YNegative,
        4 => Direction::ZPositive,
        _ => Direction::ZNegative,
    };
    let rot = match orientation & 3u8 {
        0 => Rotation::Deg0,
        1 => Rotation::Deg90,
        2 => Rotation::Deg180,
        _ => Rotation::Deg270,
    };
    (dir, rot)
}

/// Reading an orientation byte back gives the direction and rotation it was
/// made of, for every direction but the `MAX` marker.
pub proof fn lemma_orientation_roundtrip(dir: Direction, rot: Rotation)
    requires
        dir != Direction::MAX,
    ensures
        (direction_index(dir) * 4 + rotation_index(rot)) / 4 % 6 == direction_index(dir),
        (direction_index(dir) * 4 + rotation_index(rot)) % 4 == rotation_index(rot),
{
}

/// Which kinds of things collide with a brick. The three numbered player
/// channels follow `player` where unset.
#[derive(Clone, Copy, Debug)]
pub struct Collision {
    pub player: bool,
    pub player1: Option<bool>,
    pub player2: Option<bool>,
    pub player3: Option<bool>,
    pub weapon: bool,
    pub interact: bool,
    pub tool: bool,
    pub physics: bool,
}

impl Default for Collision {
    /// Everything collides.
    fn default() -> (c: Collision)
        ensures
            c == (Collision {
                player: true,
                player1: None,
                player2: None,
                player3: None,
                weapon: true,
                interact: true,
                tool: true,
                physics: true,
            }),
    {
        Collision {
            player: true,
            player1: None,
            player2: None,
            player3: None,
            weapon: true,
            interact: true,
            tool: true,
            physics: true,
        }
    }
}

/// How many sizes a procedural asset has in a chunk.
#[derive(Clone, Debug)]
pub struct BrickSizeCounter {
    pub asset_index: u32,
    pub num_sizes: u32,
}

/// How many components of a type follow one another.
#[derive(Default, Debug, Clone, Copy, Eq, PartialEq, PartialOrd, Ord)]
pub struct ComponentTypeCounter {
    pub type_index: u32,
    pub num_instances: u32,
}

/// How many entities of a type follow one another.
#[derive(Clone, Copy, Debug, Default)]
pub struct EntityTypeCounter {
    pub type_index: u32,
    pub num_entities: u32,
}

/// A port of a brick's component that wires attach to.
#[derive(Clone, Debug, PartialEq, Eq)]
pub struct WirePort {
    pub brick_id: usize,
    pub component_type: BString,
    pub port_name: BString,
}

/// A file found in a store: its blob and when it was written.
#[derive(Debug, Clone, Copy, PartialEq, Eq)]
pub struct FoundFile {
    pub blob_id: i64,
    pub created_at: i64,
}

impl FoundFile {
    pub fn new(blob_id: i64, created_at: i64) -> (f: FoundFile)
        ensures
            f == (FoundFile { blob_id, created_at }),
    {
        FoundFile { blob_id, created_at }
    }
}

/// What is known of a chunk of a grid before its bricks are read.
#[derive(Debug, Clone, Copy)]
pub struct ChunkMeta {
    pub index: ChunkIndex,
    pub chunk_offset: IntVector,
    pub chunk_size: i32,
    pub num_bricks: u32,
    pub num_wires: u32,
    pub num_components: u32,
}

/// Where the chunks of a grid lie and what they hold.
#[derive(Default)]
pub struct BrickChunkIndexSoA {
    pub chunk_3d_indices: Vec<ChunkIndex>,
    pub chunk_offsets: Vec<IntVector>,
    pub chunk_sizes: Vec<i32>,
    pub num_bricks: Vec<u32>,
    pub num_components: Vec<u32>,
    pub num_wires: Vec<u32>,
}

/// The chunks that hold entities, and the next persistent entity index.
pub struct EntityChunkIndexSoA {
    pub next_persistent_index: u32,
    pub chunk_3d_indices: Vec<ChunkIndex>,
    pub num_entities: Vec<u32>,
}

impl Default for EntityChunkIndexSoA {
    /// No chunks; persistent indices start at 2.
    fn default() -> (r: EntityChunkIndexSoA)
        ensures
            r.next_persistent_index == 2,
            r.chunk_3d_indices@.len() == 0,
            r.num_entities@.len() == 0,
    {
        EntityChunkIndexSoA {
            next_persistent_index: 2,
            chunk_3d_indices: Vec::new(),
            num_entities: Vec::new(),
        }
    }
}

/// The world settings saved with a world.
#[derive(Debug, Clone)]
pub struct WorldJson {
    pub environment: String,
}

impl Default for WorldJson {
    /// The "Plate" environment.
    fn default() -> (r: WorldJson)
        ensures
            r.environment@ == "Plate"@,
    {
        WorldJson { environment: "Plate".to_owned() }
    }
}

/// An integer vector as saved with a prefab.
#[derive(Debug, Default, Clone, Copy)]
pub struct PrefabIntVec3 {
    pub x: i32,
    pub y: i32,
    pub z: i32,
}

/// How names compare: character by character, a name before those it
/// begins.
pub open spec fn chars_order(a: Seq<char>, b: Seq<char>) -> int
    decreases a.len(),
{
    if a.len() == 0 {
        if b.len() == 0 {
            0
        } else {
            -1
        }
    } else if b.len() == 0 {
        1
    } else if a[0] != b[0] {
        if a[0] < b[0] {
            -1
        } else {
            1
        }
    } else {
        chars_order(a.drop_first(), b.drop_first())
    }
}

/// How the names `a` and `b` compare: -1, 0 or 1 (see [`chars_order`]).
pub fn compare_chars(a: &BString, b: &BString) -> (r: i8)
    ensures
        r == chars_order(a@, b@),
        -1 <= r <= 1,
{
    let x = crate::pending::str_chars(a.as_str());
    let y = crate::pending::str_chars(b.as_str());
    let mut i: usize = 0;
    assert(x@.skip(0) =~= x@);
    assert(y@.skip(0) =~= y@);
    while i < x.len() && i < y.len()
        invariant
            0 <= i <= x@.len(),
            i <= y@.len(),
            x@ == a@,
            y@ == b@,
            chars_order(x@, y@) == chars_order(x@.skip(i as int), y@.skip(i as int)),
        decreases x@.len() - i,
    {
        let c = x[i];
        let d = y[i];
        let ghost xs = x@.skip(i as int);
        let ghost ys = y@.skip(i as int);
        assert(xs[0] == c && ys[0] == d);
        if c != d {
            if c < d {
                return -1;
            } else {
                return 1;
            }
        }
        assert(xs.drop_first() =~= x@.skip(i + 1));
        assert(ys.drop_first() =~= y@.skip(i + 1));
        i = i + 1;
    }
    let ghost xs = x@.skip(i as int);
    let ghost ys = y@.skip(i as int);
    if i < x.len() {
        assert(ys.len() == 0 && xs.len() > 0);
        1
    } else if i < y.len() {
        assert(xs.len() == 0 && ys.len() > 0);
        -1
    } else {
        assert(xs.len() == 0 && ys.len() == 0);
        0
    }
}

} // verus!
