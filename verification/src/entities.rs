//! The entity types of a world and the data struct each is saved with.
use vstd::prelude::*;

use crate::model::{str_eq, SavedBrickColor};

verus! {

/// The data struct that entities of the type named `entity_type` are saved
/// with, for the entity types known here.
pub open spec fn entity_struct_name(entity_type: Seq<char>) -> Option<Seq<char>> {
    if entity_type == "Entity_Ball"@ {
        Some("BP_Entity_Ball_C"@)
    } else if entity_type == "Entity_Ball1"@ {
        Some("BP_Entity_Ball1_C"@)
    } else if entity_type == "Entity_DynamicBrickGrid"@ {
        Some("BrickGridDynamicActor"@)
    } else if entity_type == "Entity_GlobalBrickGrid"@ {
        Some("BP_BrickGrid_Global_C"@)
    } else if entity_type == "Entity_Wheel_Caster"@ {
        Some("BP_Entity_Wheel_Caster_C"@)
    } else if entity_type == "Entity_Wheel_Deep1"@ {
        Some("BP_Entity_Wheel_Deep1_C"@)
    } else if entity_type == "Entity_Wheel_Deep2"@ {
        Some("BP_Entity_Wheel_Deep2_C"@)
    } else if entity_type == "Entity_Wheel_Deep3"@ {
        Some("BP_Entity_Wheel_Deep3_C"@)
    } else if entity_type == "Entity_Wheel_DogDish1"@ {
        Some("BP_Entity_Wheel_DogDish1_C"@)
    } else if entity_type == "Entity_Wheel_DollarSign"@ {
        Some("BP_Entity_Wheel_DollarSign_C"@)
    } else if entity_type == "Entity_Wheel_German5"@ {
        Some("BP_Entity_Wheel_German5_C"@)
    } else if entity_type == "Entity_Wheel_GoKart"@ {
        Some("BP_Entity_Wheel_GoKart_C"@)
    } else if entity_type == "Entity_Wheel_LandingGear1"@ {
        Some("BP_Entity_Wheel_LandingGear1_C"@)
    } else if entity_type == "Entity_Wheel_Muscle1"@ {
        Some("BP_Entity_Wheel_Muscle1_C"@)
    } else if entity_type == "Entity_Wheel_Muscle2"@ {
        Some("BP_Entity_Wheel_Muscle2_C"@)
    } else if entity_type == "Entity_Wheel_Offroad1"@ {
        Some("BP_Entity_Wheel_Offroad1_C"@)
    } else if entity_type == "Entity_Wheel_Offroad2"@ {
        Some("BP_Entity_Wheel_Offroad2_C"@)
    } else if entity_type == "Entity_Wheel_Racing1"@ {
        Some("BP_Entity_Wheel_Racing1_C"@)
    } else if entity_type == "Entity_Wheel_Racing1_Decal"@ {
        Some("BP_Entity_Wheel_Racing1_Decal_C"@)
    } else if entity_type == "Entity_Wheel_Racing2B"@ {
        Some("BP_Entity_Wheel_Racing2B_C"@)
    } else if entity_type == "Entity_Wheel_Railroad1"@ {
        Some("BP_Entity_Wheel_Railroad1_C"@)
    } else if entity_type == "Entity_Wheel_SaladSpinner"@ {
        Some("BP_Entity_Wheel_SaladSpinner_C"@)
    } else if entity_type == "Entity_Wheel_SaladSpinnerFlipped"@ {
        Some("BP_Entity_Wheel_SaladSpinnerFlipped_C"@)
    } else if entity_type == "Entity_Wheel_Skateboard"@ {
        Some("BP_Entity_Wheel_Skateboard_C"@)
    } else if entity_type == "Entity_Wheel_Sport2"@ {
        Some("BP_Entity_Wheel_Sport2_C"@)
    } else if entity_type == "Entity_Wheel_Sport3"@ {
        Some("BP_Entity_Wheel_Sport3_C"@)
    } else if entity_type == "Entity_Wheel_Sport4"@ {
        Some("BP_Entity_Wheel_Sport4_C"@)
    } else if entity_type == "Entity_Wheel_Stance1"@ {
        Some("BP_Entity_Wheel_Stance1_C"@)
    } else if entity_type == "Entity_Wheel_Stance2"@ {
        Some("BP_Entity_Wheel_Stance2_C"@)
    } else if entity_type == "Entity_Wheel_Stance3"@ {
        Some("BP_Entity_Wheel_Stance3_C"@)
    } else if entity_type == "Entity_Wheel_Steelie1"@ {
        Some("BP_Entity_Wheel_Steelie1_C"@)
    } else if entity_type == "Entity_Wheel_Steelie2"@ {
        Some("BP_Entity_Wheel_Steelie2_C"@)
    } else if entity_type == "Entity_Wheel_Super1"@ {
        Some("BP_Entity_Wheel_Super1_C"@)
    } else if entity_type == "Entity_Wheel_Super1Flipped"@ {
        Some("BP_Entity_Wheel_Super1Flipped_C"@)
    } else if entity_type == "Entity_Wheel_Super2"@ {
        Some("BP_Entity_Wheel_Super2_C"@)
    } else if entity_type == "Entity_Wheel_Tracked1"@ {
        Some("BP_Entity_Wheel_Tracked1_C"@)
    } else if entity_type == "Entity_Wheel_TrackedSprocket1"@ {
        Some("BP_Entity_Wheel_TrackedSprocket1_C"@)
    } else if entity_type == "Entity_Wheel_Truck1"@ {
        Some("BP_Entity_Wheel_Truck1_C"@)
    } else if entity_type == "Entity_Wheel_Truck2"@ {
        Some("BP_Entity_Wheel_Truck2_C"@)
    } else if entity_type == "Entity_Wheel_Truck3"@ {
        Some("BP_Entity_Wheel_Truck3_C"@)
    } else if entity_type == "Entity_Wheel_Tuner1"@ {
        Some("BP_Entity_Wheel_Tuner1_C"@)
    } else if entity_type == "Entity_Wheel_Tuner2"@ {
        Some("BP_Entity_Wheel_Tuner2_C"@)
    } else if entity_type == "Entity_Wheel_Tuner3"@ {
        Some("BP_Entity_Wheel_Tuner3_C"@)
    } else if entity_type == "Entity_Wheel_Tuner3Flipped"@ {
        Some("BP_Entity_Wheel_Tuner3Flipped_C"@)
    } else if entity_type == "Entity_Wheel_Tuner4"@ {
        Some("BP_Entity_Wheel_Tuner4_C"@)
    } else if entity_type == "Entity_Wheel_Tuner5"@ {
        Some("BP_Entity_Wheel_Tuner5_C"@)
    } else if entity_type == "Entity_Wheel_Tuner6"@ {
        Some("BP_Entity_Wheel_Tuner6_C"@)
    } else if entity_type == "Entity_Wheel_Wagon1"@ {
        Some("BP_Entity_Wheel_Wagon1_C"@)
    } else if entity_type == "Entity_Wheel_Wagon2"@ {
        Some("BP_Entity_Wheel_Wagon2_C"@)
    } else if entity_type == "Entity_Wheel_Whitewall1"@ {
        Some("BP_Entity_Wheel_Whitewall1_C"@)
    } else if entity_type == "Entity_Wheel_Whitewall2"@ {
        Some("BP_Entity_Wheel_Whitewall2_C"@)
    } else {
        None
    }
}

/// The data struct that entities of the type named `entity_type` are saved
/// with (see [`entity_struct_name`]).
pub fn lookup_entity_struct_name(entity_type: &str) -> (r: Option<&'static str>)
    ensures
        match entity_struct_name(entity_type@) {
            Some(s) => r matches Some(x) && x@ == s,
            None => r is None,
        },
{
    if str_eq(entity_type, "Entity_Ball") {
        Some("BP_Entity_Ball_C")
    } else if str_eq(entity_type, "Entity_Ball1") {
        Some("BP_Entity_Ball1_C")
    } else if str_eq(entity_type, "Entity_DynamicBrickGrid") {
        Some("BrickGridDynamicActor")
    } else if str_eq(entity_type, "Entity_GlobalBrickGrid") {
        Some("BP_BrickGrid_Global_C")
    } else if str_eq(entity_type, "Entity_Wheel_Caster") {
        Some("BP_Entity_Wheel_Caster_C")
    } else if str_eq(entity_type, "Entity_Wheel_Deep1") {
        Some("BP_Entity_Wheel_Deep1_C")
    } else if str_eq(entity_type, "Entity_Wheel_Deep2") {
        Some("BP_Entity_Wheel_Deep2_C")
    } else if str_eq(entity_type, "Entity_Wheel_Deep3") {
        Some("BP_Entity_Wheel_Deep3_C")
    } else if str_eq(entity_type, "Entity_Wheel_DogDish1") {
        Some("BP_Entity_Wheel_DogDish1_C")
    } else if str_eq(entity_type, "Entity_Wheel_DollarSign") {
        Some("BP_Entity_Wheel_DollarSign_C")
    } else if str_eq(entity_type, "Entity_Wheel_German5") {
        Some("BP_Entity_Wheel_German5_C")
    } else if str_eq(entity_type, "Entity_Wheel_GoKart") {
        Some("BP_Entity_Wheel_GoKart_C")
    } else if str_eq(entity_type, "Entity_Wheel_LandingGear1") {
        Some("BP_Entity_Wheel_LandingGear1_C")
    } else if str_eq(entity_type, "Entity_Wheel_Muscle1") {
        Some("BP_Entity_Wheel_Muscle1_C")
    } else if str_eq(entity_type, "Entity_Wheel_Muscle2") {
        Some("BP_Entity_Wheel_Muscle2_C")
    } else if str_eq(entity_type, "Entity_Wheel_Offroad1") {
        Some("BP_Entity_Wheel_Offroad1_C")
    } else if str_eq(entity_type, "Entity_Wheel_Offroad2") {
        Some("BP_Entity_Wheel_Offroad2_C")
    } else if str_eq(entity_type, "Entity_Wheel_Racing1") {
        Some("BP_Entity_Wheel_Racing1_C")
    } else if str_eq(entity_type, "Entity_Wheel_Racing1_Decal") {
        Some("BP_Entity_Wheel_Racing1_Decal_C")
    } else if str_eq(entity_type, "Entity_Wheel_Racing2B") {
        Some("BP_Entity_Wheel_Racing2B_C")
    } else if str_eq(entity_type, "Entity_Wheel_Railroad1") {
        Some("BP_Entity_Wheel_Railroad1_C")
    } else if str_eq(entity_type, "Entity_Wheel_SaladSpinner") {
        Some("BP_Entity_Wheel_SaladSpinner_C")
    } else if str_eq(entity_type, "Entity_Wheel_SaladSpinnerFlipped") {
        Some("BP_Entity_Wheel_SaladSpinnerFlipped_C")
    } else if str_eq(entity_type, "Entity_Wheel_Skateboard") {
        Some("BP_Entity_Wheel_Skateboard_C")
    } else if str_eq(entity_type, "Entity_Wheel_Sport2") {
        Some("BP_Entity_Wheel_Sport2_C")
    } else if str_eq(entity_type, "Entity_Wheel_Sport3") {
        Some("BP_Entity_Wheel_Sport3_C")
    } else if str_eq(entity_type, "Entity_Wheel_Sport4") {
        Some("BP_Entity_Wheel_Sport4_C")
    } else if str_eq(entity_type, "Entity_Wheel_Stance1") {
        Some("BP_Entity_Wheel_Stance1_C")
    } else if str_eq(entity_type, "Entity_Wheel_Stance2") {
        Some("BP_Entity_Wheel_Stance2_C")
    } else if str_eq(entity_type, "Entity_Wheel_Stance3") {
        Some("BP_Entity_Wheel_Stance3_C")
    } else if str_eq(entity_type, "Entity_Wheel_Steelie1") {
        Some("BP_Entity_Wheel_Steelie1_C")
    } else if str_eq(entity_type, "Entity_Wheel_Steelie2") {
        Some("BP_Entity_Wheel_Steelie2_C")
    } else if str_eq(entity_type, "Entity_Wheel_Super1") {
        Some("BP_Entity_Wheel_Super1_C")
    } else if str_eq(entity_type, "Entity_Wheel_Super1Flipped") {
        Some("BP_Entity_Wheel_Super1Flipped_C")
    } else if str_eq(entity_type, "Entity_Wheel_Super2") {
        Some("BP_Entity_Wheel_Super2_C")
    } else if str_eq(entity_type, "Entity_Wheel_Tracked1") {
        Some("BP_Entity_Wheel_Tracked1_C")
    } else if str_eq(entity_type, "Entity_Wheel_TrackedSprocket1") {
        Some("BP_Entity_Wheel_TrackedSprocket1_C")
    } else if str_eq(entity_type, "Entity_Wheel_Truck1") {
        Some("BP_Entity_Wheel_Truck1_C")
    } else if str_eq(entity_type, "Entity_Wheel_Truck2") {
        Some("BP_Entity_Wheel_Truck2_C")
    } else if str_eq(entity_type, "Entity_Wheel_Truck3") {
        Some("BP_Entity_Wheel_Truck3_C")
    } else if str_eq(entity_type, "Entity_Wheel_Tuner1") {
        Some("BP_Entity_Wheel_Tuner1_C")
    } else if str_eq(entity_type, "Entity_Wheel_Tuner2") {
        Some("BP_Entity_Wheel_Tuner2_C")
    } else if str_eq(entity_type, "Entity_Wheel_Tuner3") {
        Some("BP_Entity_Wheel_Tuner3_C")
    } else if str_eq(entity_type, "Entity_Wheel_Tuner3Flipped") {
        Some("BP_Entity_Wheel_Tuner3Flipped_C")
    } else if str_eq(entity_type, "Entity_Wheel_Tuner4") {
        Some("BP_Entity_Wheel_Tuner4_C")
    } else if str_eq(entity_type, "Entity_Wheel_Tuner5") {
        Some("BP_Entity_Wheel_Tuner5_C")
    } else if str_eq(entity_type, "Entity_Wheel_Tuner6") {
        Some("BP_Entity_Wheel_Tuner6_C")
    } else if str_eq(entity_type, "Entity_Wheel_Wagon1") {
        Some("BP_Entity_Wheel_Wagon1_C")
    } else if str_eq(entity_type, "Entity_Wheel_Wagon2") {
        Some("BP_Entity_Wheel_Wagon2_C")
    } else if str_eq(entity_type, "Entity_Wheel_Whitewall1") {
        Some("BP_Entity_Wheel_Whitewall1_C")
    } else if str_eq(entity_type, "Entity_Wheel_Whitewall2") {
        Some("BP_Entity_Wheel_Whitewall2_C")
    } else {
        None
    }
}

/// The eight colors of an entity.
#[derive(Clone, Copy, Debug)]
pub struct EntityColors(
    pub SavedBrickColor,
    pub SavedBrickColor,
    pub SavedBrickColor,
    pub SavedBrickColor,
    pub SavedBrickColor,
    pub SavedBrickColor,
    pub SavedBrickColor,
    pub SavedBrickColor,
);

impl Default for EntityColors {
    /// Opaque white, eight times.
    fn default() -> (c: EntityColors)
        ensures
            c.0 == c.1 && c.1 == c.2 && c.2 == c.3 && c.3 == c.4 && c.4 == c.5 && c.5 == c.6
                && c.6 == c.7,
            c.0 == (SavedBrickColor { r: 255, g: 255, b: 255, a: 255 }),
    {
        EntityColors(
            SavedBrickColor::entity_default(),
            SavedBrickColor::entity_default(),
            SavedBrickColor::entity_default(),
            SavedBrickColor::entity_default(),
            SavedBrickColor::entity_default(),
            SavedBrickColor::entity_default(),
            SavedBrickColor::entity_default(),
            SavedBrickColor::entity_default(),
        )
    }
}

/// Every entity type known here other than the two brick grid types is
/// saved with the class named after it: `BP_`, the type name, then `_C`.
/// So no two known entity types share a class.
pub proof fn lemma_entity_class_named_after_type(t: Seq<char>)
    requires
        t != "Entity_DynamicBrickGrid"@,
        t != "Entity_GlobalBrickGrid"@,
    ensures
        entity_struct_name(t) matches Some(c) ==> c == "BP_"@ + t + "_C"@,
{
    reveal_strlit("BP_");
    reveal_strlit("_C");
    if t == "Entity_Ball"@ {
        reveal_strlit("Entity_Ball");
        reveal_strlit("BP_Entity_Ball_C");
        assert("BP_Entity_Ball_C"@ =~= "BP_"@ + t + "_C"@);
    } else if t == "Entity_Ball1"@ {
        reveal_strlit("Entity_Ball1");
        reveal_strlit("BP_Entity_Ball1_C");
        assert("BP_Entity_Ball1_C"@ =~= "BP_"@ + t + "_C"@);
    } else if t == "Entity_Wheel_Caster"@ {
        reveal_strlit("Entity_Wheel_Caster");
        reveal_strlit("BP_Entity_Wheel_Caster_C");
        assert("BP_Entity_Wheel_Caster_C"@ =~= "BP_"@ + t + "_C"@);
    } else if t == "Entity_Wheel_Deep1"@ {
        reveal_strlit("Entity_Wheel_Deep1");
        reveal_strlit("BP_Entity_Wheel_Deep1_C");
        assert("BP_Entity_Wheel_Deep1_C"@ =~= "BP_"@ + t + "_C"@);
    } else if t == "Entity_Wheel_Deep2"@ {
        reveal_strlit("Entity_Wheel_Deep2");
        reveal_strlit("BP_Entity_Wheel_Deep2_C");
        assert("BP_Entity_Wheel_Deep2_C"@ =~= "BP_"@ + t + "_C"@);
    } else if t == "Entity_Wheel_Deep3"@ {
        reveal_strlit("Entity_Wheel_Deep3");
        reveal_strlit("BP_Entity_Wheel_Deep3_C");
        assert("BP_Entity_Wheel_Deep3_C"@ =~= "BP_"@ + t + "_C"@);
    } else if t == "Entity_Wheel_DogDish1"@ {
        reveal_strlit("Entity_Wheel_DogDish1");
        reveal_strlit("BP_Entity_Wheel_DogDish1_C");
        assert("BP_Entity_Wheel_DogDish1_C"@ =~= "BP_"@ + t + "_C"@);
    } else if t == "Entity_Wheel_DollarSign"@ {
        reveal_strlit("Entity_Wheel_DollarSign");
        reveal_strlit("BP_Entity_Wheel_DollarSign_C");
        assert("BP_Entity_Wheel_DollarSign_C"@ =~= "BP_"@ + t + "_C"@);
    } else if t == "Entity_Wheel_German5"@ {
        reveal_strlit("Entity_Wheel_German5");
        reveal_strlit("BP_Entity_Wheel_German5_C");
        assert("BP_Entity_Wheel_German5_C"@ =~= "BP_"@ + t + "_C"@);
    } else if t == "Entity_Wheel_GoKart"@ {
        reveal_strlit("Entity_Wheel_GoKart");
        reveal_strlit("BP_Entity_Wheel_GoKart_C");
        assert("BP_Entity_Wheel_GoKart_C"@ =~= "BP_"@ + t + "_C"@);
    } else if t == "Entity_Wheel_LandingGear1"@ {
        reveal_strlit("Entity_Wheel_LandingGear1");
        reveal_strlit("BP_Entity_Wheel_LandingGear1_C");
        assert("BP_Entity_Wheel_LandingGear1_C"@ =~= "BP_"@ + t + "_C"@);
    } else if t == "Entity_Wheel_Muscle1"@ {
        reveal_strlit("Entity_Wheel_Muscle1");
        reveal_strlit("BP_Entity_Wheel_Muscle1_C");
        assert("BP_Entity_Wheel_Muscle1_C"@ =~= "BP_"@ + t + "_C"@);
    } else if t == "Entity_Wheel_Muscle2"@ {
        reveal_strlit("Entity_Wheel_Muscle2");
        reveal_strlit("BP_Entity_Wheel_Muscle2_C");
        assert("BP_Entity_Wheel_Muscle2_C"@ =~= "BP_"@ + t + "_C"@);
    } else if t == "Entity_Wheel_Offroad1"@ {
        reveal_strlit("Entity_Wheel_Offroad1");
        reveal_strlit("BP_Entity_Wheel_Offroad1_C");
        assert("BP_Entity_Wheel_Offroad1_C"@ =~= "BP_"@ + t + "_C"@);
    } else if t == "Entity_Wheel_Offroad2"@ {
        reveal_strlit("Entity_Wheel_Offroad2");
        reveal_strlit("BP_Entity_Wheel_Offroad2_C");
        assert("BP_Entity_Wheel_Offroad2_C"@ =~= "BP_"@ + t + "_C"@);
    } else if t == "Entity_Wheel_Racing1"@ {
        reveal_strlit("Entity_Wheel_Racing1");
        reveal_strlit("BP_Entity_Wheel_Racing1_C");
        assert("BP_Entity_Wheel_Racing1_C"@ =~= "BP_"@ + t + "_C"@);
    } else if t == "Entity_Wheel_Racing1_Decal"@ {
        reveal_strlit("Entity_Wheel_Racing1_Decal");
        reveal_strlit("BP_Entity_Wheel_Racing1_Decal_C");
        assert("BP_Entity_Wheel_Racing1_Decal_C"@ =~= "BP_"@ + t + "_C"@);
    } else if t == "Entity_Wheel_Racing2B"@ {
        reveal_strlit("Entity_Wheel_Racing2B");
        reveal_strlit("BP_Entity_Wheel_Racing2B_C");
        assert("BP_Entity_Wheel_Racing2B_C"@ =~= "BP_"@ + t + "_C"@);
    } else if t == "Entity_Wheel_Railroad1"@ {
        reveal_strlit("Entity_Wheel_Railroad1");
        reveal_strlit("BP_Entity_Wheel_Railroad1_C");
        assert("BP_Entity_Wheel_Railroad1_C"@ =~= "BP_"@ + t + "_C"@);
    } else if t == "Entity_Wheel_SaladSpinner"@ {
        reveal_strlit("Entity_Wheel_SaladSpinner");
        reveal_strlit("BP_Entity_Wheel_SaladSpinner_C");
        assert("BP_Entity_Wheel_SaladSpinner_C"@ =~= "BP_"@ + t + "_C"@);
    } else if t == "Entity_Wheel_SaladSpinnerFlipped"@ {
        reveal_strlit("Entity_Wheel_SaladSpinnerFlipped");
        reveal_strlit("BP_Entity_Wheel_SaladSpinnerFlipped_C");
        assert("BP_Entity_Wheel_SaladSpinnerFlipped_C"@ =~= "BP_"@ + t + "_C"@);
    } else if t == "Entity_Wheel_Skateboard"@ {
        reveal_strlit("Entity_Wheel_Skateboard");
        reveal_strlit("BP_Entity_Wheel_Skateboard_C");
        assert("BP_Entity_Wheel_Skateboard_C"@ =~= "BP_"@ + t + "_C"@);
    } else if t == "Entity_Wheel_Sport2"@ {
        reveal_strlit("Entity_Wheel_Sport2");
        reveal_strlit("BP_Entity_Wheel_Sport2_C");
        assert("BP_Entity_Wheel_Sport2_C"@ =~= "BP_"@ + t + "_C"@);
    } else if t == "Entity_Wheel_Sport3"@ {
        reveal_strlit("Entity_Wheel_Sport3");
        reveal_strlit("BP_Entity_Wheel_Sport3_C");
        assert("BP_Entity_Wheel_Sport3_C"@ =~= "BP_"@ + t + "_C"@);
    } else if t == "Entity_Wheel_Sport4"@ {
        reveal_strlit("Entity_Wheel_Sport4");
        reveal_strlit("BP_Entity_Wheel_Sport4_C");
        assert("BP_Entity_Wheel_Sport4_C"@ =~= "BP_"@ + t + "_C"@);
    } else if t == "Entity_Wheel_Stance1"@ {
        reveal_strlit("Entity_Wheel_Stance1");
        reveal_strlit("BP_Entity_Wheel_Stance1_C");
        assert("BP_Entity_Wheel_Stance1_C"@ =~= "BP_"@ + t + "_C"@);
    } else if t == "Entity_Wheel_Stance2"@ {
        reveal_strlit("Entity_Wheel_Stance2");
        reveal_strlit("BP_Entity_Wheel_Stance2_C");
        assert("BP_Entity_Wheel_Stance2_C"@ =~= "BP_"@ + t + "_C"@);
    } else if t == "Entity_Wheel_Stance3"@ {
        reveal_strlit("Entity_Wheel_Stance3");
        reveal_strlit("BP_Entity_Wheel_Stance3_C");
        assert("BP_Entity_Wheel_Stance3_C"@ =~= "BP_"@ + t + "_C"@);
    } else if t == "Entity_Wheel_Steelie1"@ {
        reveal_strlit("Entity_Wheel_Steelie1");
        reveal_strlit("BP_Entity_Wheel_Steelie1_C");
        assert("BP_Entity_Wheel_Steelie1_C"@ =~= "BP_"@ + t + "_C"@);
    } else if t == "Entity_Wheel_Steelie2"@ {
        reveal_strlit("Entity_Wheel_Steelie2");
        reveal_strlit("BP_Entity_Wheel_Steelie2_C");
        assert("BP_Entity_Wheel_Steelie2_C"@ =~= "BP_"@ + t + "_C"@);
    } else if t == "Entity_Wheel_Super1"@ {
        reveal_strlit("Entity_Wheel_Super1");
        reveal_strlit("BP_Entity_Wheel_Super1_C");
        assert("BP_Entity_Wheel_Super1_C"@ =~= "BP_"@ + t + "_C"@);
    } else if t == "Entity_Wheel_Super1Flipped"@ {
        reveal_strlit("Entity_Wheel_Super1Flipped");
        reveal_strlit("BP_Entity_Wheel_Super1Flipped_C");
        assert("BP_Entity_Wheel_Super1Flipped_C"@ =~= "BP_"@ + t + "_C"@);
    } else if t == "Entity_Wheel_Super2"@ {
        reveal_strlit("Entity_Wheel_Super2");
        reveal_strlit("BP_Entity_Wheel_Super2_C");
        assert("BP_Entity_Wheel_Super2_C"@ =~= "BP_"@ + t + "_C"@);
    } else if t == "Entity_Wheel_Tracked1"@ {
        reveal_strlit("Entity_Wheel_Tracked1");
        reveal_strlit("BP_Entity_Wheel_Tracked1_C");
        assert("BP_Entity_Wheel_Tracked1_C"@ =~= "BP_"@ + t + "_C"@);
    } else if t == "Entity_Wheel_TrackedSprocket1"@ {
        reveal_strlit("Entity_Wheel_TrackedSprocket1");
        reveal_strlit("BP_Entity_Wheel_TrackedSprocket1_C");
        assert("BP_Entity_Wheel_TrackedSprocket1_C"@ =~= "BP_"@ + t + "_C"@);
    } else if t == "Entity_Wheel_Truck1"@ {
        reveal_strlit("Entity_Wheel_Truck1");
        reveal_strlit("BP_Entity_Wheel_Truck1_C");
        assert("BP_Entity_Wheel_Truck1_C"@ =~= "BP_"@ + t + "_C"@);
    } else if t == "Entity_Wheel_Truck2"@ {
        reveal_strlit("Entity_Wheel_Truck2");
        reveal_strlit("BP_Entity_Wheel_Truck2_C");
        assert("BP_Entity_Wheel_Truck2_C"@ =~= "BP_"@ + t + "_C"@);
    } else if t == "Entity_Wheel_Truck3"@ {
        reveal_strlit("Entity_Wheel_Truck3");
        reveal_strlit("BP_Entity_Wheel_Truck3_C");
        assert("BP_Entity_Wheel_Truck3_C"@ =~= "BP_"@ + t + "_C"@);
    } else if t == "Entity_Wheel_Tuner1"@ {
        reveal_strlit("Entity_Wheel_Tuner1");
        reveal_strlit("BP_Entity_Wheel_Tuner1_C");
        assert("BP_Entity_Wheel_Tuner1_C"@ =~= "BP_"@ + t + "_C"@);
    } else if t == "Entity_Wheel_Tuner2"@ {
        reveal_strlit("Entity_Wheel_Tuner2");
        reveal_strlit("BP_Entity_Wheel_Tuner2_C");
        assert("BP_Entity_Wheel_Tuner2_C"@ =~= "BP_"@ + t + "_C"@);
    } else if t == "Entity_Wheel_Tuner3"@ {
        reveal_strlit("Entity_Wheel_Tuner3");
        reveal_strlit("BP_Entity_Wheel_Tuner3_C");
        assert("BP_Entity_Wheel_Tuner3_C"@ =~= "BP_"@ + t + "_C"@);
    } else if t == "Entity_Wheel_Tuner3Flipped"@ {
        reveal_strlit("Entity_Wheel_Tuner3Flipped");
        reveal_strlit("BP_Entity_Wheel_Tuner3Flipped_C");
        assert("BP_Entity_Wheel_Tuner3Flipped_C"@ =~= "BP_"@ + t + "_C"@);
    } else if t == "Entity_Wheel_Tuner4"@ {
        reveal_strlit("Entity_Wheel_Tuner4");
        reveal_strlit("BP_Entity_Wheel_Tuner4_C");
        assert("BP_Entity_Wheel_Tuner4_C"@ =~= "BP_"@ + t + "_C"@);
    } else if t == "Entity_Wheel_Tuner5"@ {
        reveal_strlit("Entity_Wheel_Tuner5");
        reveal_strlit("BP_Entity_Wheel_Tuner5_C");
        assert("BP_Entity_Wheel_Tuner5_C"@ =~= "BP_"@ + t + "_C"@);
    } else if t == "Entity_Wheel_Tuner6"@ {
        reveal_strlit("Entity_Wheel_Tuner6");
        reveal_strlit("BP_Entity_Wheel_Tuner6_C");
        assert("BP_Entity_Wheel_Tuner6_C"@ =~= "BP_"@ + t + "_C"@);
    } else if t == "Entity_Wheel_Wagon1"@ {
        reveal_strlit("Entity_Wheel_Wagon1");
        reveal_strlit("BP_Entity_Wheel_Wagon1_C");
        assert("BP_Entity_Wheel_Wagon1_C"@ =~= "BP_"@ + t + "_C"@);
    } else if t == "Entity_Wheel_Wagon2"@ {
        reveal_strlit("Entity_Wheel_Wagon2");
        reveal_strlit("BP_Entity_Wheel_Wagon2_C");
        assert("BP_Entity_Wheel_Wagon2_C"@ =~= "BP_"@ + t + "_C"@);
    } else if t == "Entity_Wheel_Whitewall1"@ {
        reveal_strlit("Entity_Wheel_Whitewall1");
        reveal_strlit("BP_Entity_Wheel_Whitewall1_C");
        assert("BP_Entity_Wheel_Whitewall1_C"@ =~= "BP_"@ + t + "_C"@);
    } else if t == "Entity_Wheel_Whitewall2"@ {
        reveal_strlit("Entity_Wheel_Whitewall2");
        reveal_strlit("BP_Entity_Wheel_Whitewall2_C");
        assert("BP_Entity_Wheel_Whitewall2_C"@ =~= "BP_"@ + t + "_C"@);
    }
}

} // verus!
