//! The order of brick sizes and brick types: sizes by height, then depth,
//! then width; basic bricks before procedural ones, each by asset name and
//! then size.
use vstd::prelude::*;

use std::cmp::Ordering;

use crate::model::{chars_order, compare_chars, BString, BrickSize, BrickType};

verus! {

/// An order as -1, 0 or 1.
pub open spec fn ord_of(o: Ordering) -> int {
    match o {
        Ordering::Less => -1,
        Ordering::Equal => 0,
        Ordering::Greater => 1,
    }
}

/// How `a` compares with `b`: -1, 0 or 1.
pub open spec fn int_order(a: int, b: int) -> int {
    if a < b {
        -1
    } else if a == b {
        0
    } else {
        1
    }
}

/// How two sizes along one axis compare: -1, 0 or 1.
pub open spec fn u16_order(a: u16, b: u16) -> int {
    if a < b {
        -1
    } else if a == b {
        0
    } else {
        1
    }
}

/// How brick sizes compare: by `z`, then `y`, then `x`.
pub open spec fn size_order(a: BrickSize, b: BrickSize) -> int {
    if a.z != b.z {
        u16_order(a.z, b.z)
    } else if a.y != b.y {
        u16_order(a.y, b.y)
    } else {
        u16_order(a.x, b.x)
    }
}

/// How brick types compare: basic bricks before procedural ones; basic
/// bricks by asset name; procedural bricks by asset name, then size.
pub open spec fn type_order(a: BrickType, b: BrickType) -> int {
    match (a, b) {
        (BrickType::Basic(x), BrickType::Basic(y)) => chars_order(x@, y@),
        (BrickType::Basic(_), BrickType::Procedural { .. }) => -1,
        (BrickType::Procedural { .. }, BrickType::Basic(_)) => 1,
        (BrickType::Procedural { asset: x, size: sx }, BrickType::Procedural { asset: y, size: sy }) => {
            let o = chars_order(x@, y@);
            if o != 0 {
                o
            } else {
                size_order(sx, sy)
            }
        },
    }
}

fn order_u16(a: u16, b: u16) -> (r: Ordering)
    ensures
        ord_of(r) == u16_order(a, b),
{
    if a < b {
        Ordering::Less
    } else if a == b {
        Ordering::Equal
    } else {
        Ordering::Greater
    }
}

/// How the names `a` and `b` compare (see [`chars_order`]).
pub fn order_names(a: &BString, b: &BString) -> (r: Ordering)
    ensures
        ord_of(r) == chars_order(a@, b@),
{
    let c = compare_chars(a, b);
    if c < 0 {
        Ordering::Less
    } else if c == 0 {
        Ordering::Equal
    } else {
        Ordering::Greater
    }
}

impl BrickSize {
    /// How this size compares with `other`: by `z`, then `y`, then `x`.
    pub fn cmp(&self, other: &Self) -> (r: Ordering)
        ensures
            ord_of(r) == size_order(*self, *other),
    {
        if self.z != other.z {
            order_u16(self.z, other.z)
        } else if self.y != other.y {
            order_u16(self.y, other.y)
        } else {
            order_u16(self.x, other.x)
        }
    }
}

impl BrickType {
    /// How this brick type compares with `other`: basic bricks before
    /// procedural ones; basic bricks by asset name; procedural bricks by
    /// asset name, then size.
    pub fn cmp(&self, other: &Self) -> (r: Ordering)
        ensures
            ord_of(r) == type_order(*self, *other),
    {
        match (self, other) {
            (BrickType::Basic(x), BrickType::Basic(y)) => order_names(x, y),
            (BrickType::Basic(_), BrickType::Procedural { .. }) => Ordering::Less,
            (BrickType::Procedural { .. }, BrickType::Basic(_)) => Ordering::Greater,
            (BrickType::Procedural { asset: x, size: sx }, BrickType::Procedural { asset: y, size: sy }) => {
                let o = order_names(x, y);
                match o {
                    Ordering::Equal => sx.cmp(sy),
                    _ => o,
                }
            },
        }
    }
}

/// A brick type compares equal with itself, and `a` compares with `b` the
/// other way round from `b` with `a`.
pub proof fn lemma_type_order_antisymmetric(a: BrickType, b: BrickType)
    ensures
        type_order(a, a) == 0,
        type_order(a, b) == -type_order(b, a),
{
    match (a, b) {
        (BrickType::Basic(x), BrickType::Basic(y)) => {
            lemma_chars_order_antisymmetric(x@, y@);
            lemma_chars_order_antisymmetric(x@, x@);
        },
        (BrickType::Procedural { asset: x, .. }, BrickType::Procedural { asset: y, .. }) => {
            lemma_chars_order_antisymmetric(x@, y@);
            lemma_chars_order_antisymmetric(x@, x@);
        },
        (BrickType::Basic(x), _) => {
            lemma_chars_order_antisymmetric(x@, x@);
        },
        (BrickType::Procedural { asset: x, .. }, _) => {
            lemma_chars_order_antisymmetric(x@, x@);
        },
    }
}

/// Names compare equal with themselves, and the other way round when
/// swapped.
pub proof fn lemma_chars_order_antisymmetric(a: Seq<char>, b: Seq<char>)
    ensures
        chars_order(a, a) == 0,
        chars_order(a, b) == -chars_order(b, a),
    decreases a.len(),
{
    if a.len() > 0 {
        lemma_chars_order_antisymmetric(a.drop_first(), a.drop_first());
        if b.len() > 0 {
            lemma_chars_order_antisymmetric(a.drop_first(), b.drop_first());
        }
    }
}

} // verus!
