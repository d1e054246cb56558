//! Item tooltip rules: the colour an item's name is drawn in, and the
//! equipment slot an item is compared against.

use vstd::prelude::*;
use crate::canvas::Rgb;
use crate::inventory::EquipSlot;

verus! {

#[derive(Clone, Copy, PartialEq, Eq, Structural, Debug, Hash)]
pub enum ItemQuality {
    Poor,
    Common,
    Fine,
    Masterwork,
    Enchanted,
}

#[derive(Clone, Copy, PartialEq, Eq, Structural, Debug, Hash)]
pub enum ItemSubtype {
    Sword,
    Axe,
    Dagger,
    Mace,
    Spear,
    Staff,
    Head,
    Chest,
    Legs,
    Hands,
    Feet,
    Shield,
    Ring,
    Amulet,
    HealthPotion,
    /// Any subtype with no equipment slot of its own.
    Other,
}

pub open spec fn spec_quality_color(quality: ItemQuality) -> Rgb {
    match quality {
        ItemQuality::Poor => Rgb { red: 0x99, green: 0x99, blue: 0x99 },
        ItemQuality::Common => Rgb { red: 0xcc, green: 0xcc, blue: 0xcc },
        ItemQuality::Fine => Rgb { red: 0x44, green: 0xcc, blue: 0x44 },
        ItemQuality::Masterwork => Rgb { red: 0x4a, green: 0x9e, blue: 0xff },
        ItemQuality::Enchanted => Rgb { red: 0xc8, green: 0x44, blue: 0xcc },
    }
}

/// Grey for poor, light grey for common, green for fine, blue for
/// masterwork, violet for enchanted.
pub fn get_quality_color(quality: ItemQuality) -> (color: Rgb)
    ensures
        color == spec_quality_color(quality),
{
    match quality {
        ItemQuality::Poor => Rgb { red: 0x99, green: 0x99, blue: 0x99 },
        ItemQuality::Common => Rgb { red: 0xcc, green: 0xcc, blue: 0xcc },
        ItemQuality::Fine => Rgb { red: 0x44, green: 0xcc, blue: 0x44 },
        ItemQuality::Masterwork => Rgb { red: 0x4a, green: 0x9e, blue: 0xff },
        ItemQuality::Enchanted => Rgb { red: 0xc8, green: 0x44, blue: 0xcc },
    }
}

/// Which worn item a tooltip compares against. Every armour piece (head,
/// chest, legs, hands, feet, shield, amulet) is compared with the item
/// worn in the equipment slot of the same name; every weapon with the
/// weapon slot; a ring with the first ring slot; anything that is worn
/// nowhere with the weapon slot. So two different armour pieces are never
/// compared with the same worn item, and no armour piece is compared with
/// the weapon or a ring.
pub proof fn lemma_comparison_slots(a: ItemSubtype, b: ItemSubtype)
    ensures
        spec_comparison_slot(ItemSubtype::Head) == EquipSlot::Head,
        spec_comparison_slot(ItemSubtype::Chest) == EquipSlot::Chest,
        spec_comparison_slot(ItemSubtype::Legs) == EquipSlot::Legs,
        spec_comparison_slot(ItemSubtype::Hands) == EquipSlot::Hands,
        spec_comparison_slot(ItemSubtype::Feet) == EquipSlot::Feet,
        spec_comparison_slot(ItemSubtype::Shield) == EquipSlot::Shield,
        spec_comparison_slot(ItemSubtype::Amulet) == EquipSlot::Amulet,
        spec_comparison_slot(ItemSubtype::Ring) == EquipSlot::Ring1,
        spec_comparison_slot(ItemSubtype::Sword) == EquipSlot::Weapon,
        spec_comparison_slot(ItemSubtype::Axe) == EquipSlot::Weapon,
        spec_comparison_slot(ItemSubtype::Dagger) == EquipSlot::Weapon,
        spec_comparison_slot(ItemSubtype::Mace) == EquipSlot::Weapon,
        spec_comparison_slot(ItemSubtype::Spear) == EquipSlot::Weapon,
        spec_comparison_slot(ItemSubtype::Staff) == EquipSlot::Weapon,
        spec_comparison_slot(ItemSubtype::HealthPotion) == EquipSlot::Weapon,
        spec_comparison_slot(ItemSubtype::Other) == EquipSlot::Weapon,
        is_armour(a) && is_armour(b) && a != b ==> spec_comparison_slot(a) != spec_comparison_slot(b),
        is_armour(a) ==> spec_comparison_slot(a) != EquipSlot::Weapon && spec_comparison_slot(a)
            != EquipSlot::Ring1 && spec_comparison_slot(a) != EquipSlot::Ring2,
        spec_comparison_slot(a) != EquipSlot::Ring2,
{
}

/// The armour subtypes: pieces worn in a slot of their own other than the
/// weapon and ring slots.
pub open spec fn is_armour(subtype: ItemSubtype) -> bool {
    ||| subtype == ItemSubtype::Head
    ||| subtype == ItemSubtype::Chest
    ||| subtype == ItemSubtype::Legs
    ||| subtype == ItemSubtype::Hands
    ||| subtype == ItemSubtype::Feet
    ||| subtype == ItemSubtype::Shield
    ||| subtype == ItemSubtype::Amulet
}

pub open spec fn spec_comparison_slot(subtype: ItemSubtype) -> EquipSlot {
    match subtype {
        ItemSubtype::Head => EquipSlot::Head,
        ItemSubtype::Chest => EquipSlot::Chest,
        ItemSubtype::Legs => EquipSlot::Legs,
        ItemSubtype::Hands => EquipSlot::Hands,
        ItemSubtype::Feet => EquipSlot::Feet,
        ItemSubtype::Shield => EquipSlot::Shield,
        ItemSubtype::Ring => EquipSlot::Ring1,
        ItemSubtype::Amulet => EquipSlot::Amulet,
        _ => EquipSlot::Weapon,
    }
}

/// The slot whose worn item a tooltip compares against: weapons (and any
/// subtype without a slot) against the weapon slot, armour pieces against
/// their own slot, and rings always against the first ring slot.
pub fn subtype_to_equip_slot_for_comparison(subtype: ItemSubtype) -> (slot: EquipSlot)
    ensures
        slot == spec_comparison_slot(subtype),
{
    match subtype {
        ItemSubtype::Sword | ItemSubtype::Axe | ItemSubtype::Dagger | ItemSubtype::Mace | ItemSubtype::Spear
        | ItemSubtype::Staff => EquipSlot::Weapon,
        ItemSubtype::Head => EquipSlot::Head,
        ItemSubtype::Chest => EquipSlot::Chest,
        ItemSubtype::Legs => EquipSlot::Legs,
        ItemSubtype::Hands => EquipSlot::Hands,
        ItemSubtype::Feet => EquipSlot::Feet,
        ItemSubtype::Shield => EquipSlot::Shield,
        ItemSubtype::Ring => EquipSlot::Ring1,
        ItemSubtype::Amulet => EquipSlot::Amulet,
        _ => EquipSlot::Weapon,
    }
}

} // verus!
