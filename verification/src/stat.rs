//! The stats carried by LOTRO gear, their names and abbreviations, stat
//! goals, and a fixed-size table of per-stat values.
use vstd::prelude::*;

use crate::text::{
    concat3, eq_lit, parse_i64, parse_i64_spec, remove_chars, string_from_chars, to_lowercase,
    unicode_lowercase, without_chars,
};

verus! {

/// Primary and secondary stats available on LOTRO gear.
#[derive(Debug, Clone, Copy, PartialEq, Eq, Hash, Structural)]
pub enum Stat {
    Might,
    Agility,
    Vitality,
    Will,
    Fate,
    Morale,
    Power,
    DevRating,
    OffensiveOverpower,
    IncMitigations,
    Armor,
    CriticalRating,
    Finesse,
    PhysicalMastery,
    TacticalMastery,
    OutgoingHealing,
    Resistance,
    CriticalDefense,
    IncomingHealing,
    Block,
    Parry,
    Evade,
    PhysicalMitigation,
    TacticalMitigation,
}

/// The number of stats.
pub const STAT_COUNT: usize = 24;

/// Position of a stat in declaration order.
pub open spec fn stat_index_spec(s: Stat) -> int {
    match s {
        Stat::Might => 0,
        Stat::Agility => 1,
        Stat::Vitality => 2,
        Stat::Will => 3,
        Stat::Fate => 4,
        Stat::Morale => 5,
        Stat::Power => 6,
        Stat::DevRating => 7,
        Stat::OffensiveOverpower => 8,
        Stat::IncMitigations => 9,
        Stat::Armor => 10,
        Stat::CriticalRating => 11,
        Stat::Finesse => 12,
        Stat::PhysicalMastery => 13,
        Stat::TacticalMastery => 14,
        Stat::OutgoingHealing => 15,
        Stat::Resistance => 16,
        Stat::CriticalDefense => 17,
        Stat::IncomingHealing => 18,
        Stat::Block => 19,
        Stat::Parry => 20,
        Stat::Evade => 21,
        Stat::PhysicalMitigation => 22,
        Stat::TacticalMitigation => 23,
    }
}

/// The stat at a declaration-order position.
pub open spec fn stat_at(i: int) -> Stat {
    if i == 0 {
        Stat::Might
    } else if i == 1 {
        Stat::Agility
    } else if i == 2 {
        Stat::Vitality
    } else if i == 3 {
        Stat::Will
    } else if i == 4 {
        Stat::Fate
    } else if i == 5 {
        Stat::Morale
    } else if i == 6 {
        Stat::Power
    } else if i == 7 {
        Stat::DevRating
    } else if i == 8 {
        Stat::OffensiveOverpower
    } else if i == 9 {
        Stat::IncMitigations
    } else if i == 10 {
        Stat::Armor
    } else if i == 11 {
        Stat::CriticalRating
    } else if i == 12 {
        Stat::Finesse
    } else if i == 13 {
        Stat::PhysicalMastery
    } else if i == 14 {
        Stat::TacticalMastery
    } else if i == 15 {
        Stat::OutgoingHealing
    } else if i == 16 {
        Stat::Resistance
    } else if i == 17 {
        Stat::CriticalDefense
    } else if i == 18 {
        Stat::IncomingHealing
    } else if i == 19 {
        Stat::Block
    } else if i == 20 {
        Stat::Parry
    } else if i == 21 {
        Stat::Evade
    } else if i == 22 {
        Stat::PhysicalMitigation
    } else {
        Stat::TacticalMitigation
    }
}

/// Position of a stat in declaration order.
pub fn stat_index(s: Stat) -> (i: usize)
    ensures
        i as int == stat_index_spec(s),
        i < STAT_COUNT,
{
    match s {
        Stat::Might => 0,
        Stat::Agility => 1,
        Stat::Vitality => 2,
        Stat::Will => 3,
        Stat::Fate => 4,
        Stat::Morale => 5,
        Stat::Power => 6,
        Stat::DevRating => 7,
        Stat::OffensiveOverpower => 8,
        Stat::IncMitigations => 9,
        Stat::Armor => 10,
        Stat::CriticalRating => 11,
        Stat::Finesse => 12,
        Stat::PhysicalMastery => 13,
        Stat::TacticalMastery => 14,
        Stat::OutgoingHealing => 15,
        Stat::Resistance => 16,
        Stat::CriticalDefense => 17,
        Stat::IncomingHealing => 18,
        Stat::Block => 19,
        Stat::Parry => 20,
        Stat::Evade => 21,
        Stat::PhysicalMitigation => 22,
        Stat::TacticalMitigation => 23,
    }
}

/// Position `i` holds the stat whose index is `i`.
pub proof fn lemma_index_of_stat_at(i: int)
    requires
        0 <= i < STAT_COUNT,
    ensures
        stat_index_spec(stat_at(i)) == i,
{
}

/// The stat at position `i` of the canonical order.
pub fn stat_from_index(i: usize) -> (s: Stat)
    requires
        i < STAT_COUNT,
    ensures
        s == stat_at(i as int),
{
    if i == 0 {
        Stat::Might
    } else if i == 1 {
        Stat::Agility
    } else if i == 2 {
        Stat::Vitality
    } else if i == 3 {
        Stat::Will
    } else if i == 4 {
        Stat::Fate
    } else if i == 5 {
        Stat::Morale
    } else if i == 6 {
        Stat::Power
    } else if i == 7 {
        Stat::DevRating
    } else if i == 8 {
        Stat::OffensiveOverpower
    } else if i == 9 {
        Stat::IncMitigations
    } else if i == 10 {
        Stat::Armor
    } else if i == 11 {
        Stat::CriticalRating
    } else if i == 12 {
        Stat::Finesse
    } else if i == 13 {
        Stat::PhysicalMastery
    } else if i == 14 {
        Stat::TacticalMastery
    } else if i == 15 {
        Stat::OutgoingHealing
    } else if i == 16 {
        Stat::Resistance
    } else if i == 17 {
        Stat::CriticalDefense
    } else if i == 18 {
        Stat::IncomingHealing
    } else if i == 19 {
        Stat::Block
    } else if i == 20 {
        Stat::Parry
    } else if i == 21 {
        Stat::Evade
    } else if i == 22 {
        Stat::PhysicalMitigation
    } else {
        Stat::TacticalMitigation
    }
}

/// Declaration order is a bijection onto `0..24`.
pub proof fn lemma_stat_index_bijective()
    ensures
        forall|s: Stat| 0 <= #[trigger] stat_index_spec(s) < STAT_COUNT,
        forall|s: Stat| #[trigger] stat_at(stat_index_spec(s)) == s,
        forall|a: Stat, b: Stat| #[trigger] stat_index_spec(a) == #[trigger] stat_index_spec(b) ==> a == b,
{
}

/// The human-readable stat name shown in reports.
pub open spec fn display_name_spec(s: Stat) -> Seq<char> {
    match s {
        Stat::Might => "Might"@,
        Stat::Agility => "Agility"@,
        Stat::Vitality => "Vitality"@,
        Stat::Will => "Will"@,
        Stat::Fate => "Fate"@,
        Stat::Morale => "Morale"@,
        Stat::Power => "Power"@,
        Stat::DevRating => "Dev Rating"@,
        Stat::OffensiveOverpower => "Offensive Overpower"@,
        Stat::IncMitigations => "Inc. Mitigations"@,
        Stat::Armor => "Armour"@,
        Stat::CriticalRating => "Critical Rating"@,
        Stat::Finesse => "Finesse"@,
        Stat::PhysicalMastery => "Physical Mastery"@,
        Stat::TacticalMastery => "Tactical Mastery"@,
        Stat::OutgoingHealing => "Outgoing Healing"@,
        Stat::Resistance => "Resistance"@,
        Stat::CriticalDefense => "Critical Defense"@,
        Stat::IncomingHealing => "Incoming Healing"@,
        Stat::Block => "Block"@,
        Stat::Parry => "Parry"@,
        Stat::Evade => "Evade"@,
        Stat::PhysicalMitigation => "Physical Mitigation"@,
        Stat::TacticalMitigation => "Tactical Mitigation"@,
    }
}

impl Stat {
    /// The human-readable stat name shown in reports (`Armour`, `Critical Rating`, ...).
    pub fn display_name(self) -> (r: &'static str)
        ensures
            r@ == display_name_spec(self),
    {
        match self {
            Stat::Might => "Might",
            Stat::Agility => "Agility",
            Stat::Vitality => "Vitality",
            Stat::Will => "Will",
            Stat::Fate => "Fate",
            Stat::Morale => "Morale",
            Stat::Power => "Power",
            Stat::DevRating => "Dev Rating",
            Stat::OffensiveOverpower => "Offensive Overpower",
            Stat::IncMitigations => "Inc. Mitigations",
            Stat::Armor => "Armour",
            Stat::CriticalRating => "Critical Rating",
            Stat::Finesse => "Finesse",
            Stat::PhysicalMastery => "Physical Mastery",
            Stat::TacticalMastery => "Tactical Mastery",
            Stat::OutgoingHealing => "Outgoing Healing",
            Stat::Resistance => "Resistance",
            Stat::CriticalDefense => "Critical Defense",
            Stat::IncomingHealing => "Incoming Healing",
            Stat::Block => "Block",
            Stat::Parry => "Parry",
            Stat::Evade => "Evade",
            Stat::PhysicalMitigation => "Physical Mitigation",
            Stat::TacticalMitigation => "Tactical Mitigation",
        }
    }
}

/// The PascalCase key used for a stat in the canonical stats file.
pub open spec fn stat_key_spec(s: Stat) -> Seq<char> {
    match s {
        Stat::Might => "Might"@,
        Stat::Agility => "Agility"@,
        Stat::Vitality => "Vitality"@,
        Stat::Will => "Will"@,
        Stat::Fate => "Fate"@,
        Stat::Morale => "Morale"@,
        Stat::Power => "Power"@,
        Stat::DevRating => "DevRating"@,
        Stat::OffensiveOverpower => "OffensiveOverpower"@,
        Stat::IncMitigations => "IncMitigations"@,
        Stat::Armor => "Armor"@,
        Stat::CriticalRating => "CriticalRating"@,
        Stat::Finesse => "Finesse"@,
        Stat::PhysicalMastery => "PhysicalMastery"@,
        Stat::TacticalMastery => "TacticalMastery"@,
        Stat::OutgoingHealing => "OutgoingHealing"@,
        Stat::Resistance => "Resistance"@,
        Stat::CriticalDefense => "CriticalDefense"@,
        Stat::IncomingHealing => "IncomingHealing"@,
        Stat::Block => "Block"@,
        Stat::Parry => "Parry"@,
        Stat::Evade => "Evade"@,
        Stat::PhysicalMitigation => "PhysicalMitigation"@,
        Stat::TacticalMitigation => "TacticalMitigation"@,
    }
}

/// The PascalCase key used for a stat in the canonical stats file.
pub fn stat_key(s: Stat) -> (r: &'static str)
    ensures
        r@ == stat_key_spec(s),
{
    match s {
        Stat::Might => "Might",
        Stat::Agility => "Agility",
        Stat::Vitality => "Vitality",
        Stat::Will => "Will",
        Stat::Fate => "Fate",
        Stat::Morale => "Morale",
        Stat::Power => "Power",
        Stat::DevRating => "DevRating",
        Stat::OffensiveOverpower => "OffensiveOverpower",
        Stat::IncMitigations => "IncMitigations",
        Stat::Armor => "Armor",
        Stat::CriticalRating => "CriticalRating",
        Stat::Finesse => "Finesse",
        Stat::PhysicalMastery => "PhysicalMastery",
        Stat::TacticalMastery => "TacticalMastery",
        Stat::OutgoingHealing => "OutgoingHealing",
        Stat::Resistance => "Resistance",
        Stat::CriticalDefense => "CriticalDefense",
        Stat::IncomingHealing => "IncomingHealing",
        Stat::Block => "Block",
        Stat::Parry => "Parry",
        Stat::Evade => "Evade",
        Stat::PhysicalMitigation => "PhysicalMitigation",
        Stat::TacticalMitigation => "TacticalMitigation",
    }
}

/// The optimizer-facing stats that may appear in the canonical stats file, in
/// canonical display order.
pub open spec fn tracked_stats_spec() -> Seq<Stat> {
    seq![Stat::Morale, Stat::Power, Stat::Armor, Stat::CriticalRating, Stat::Finesse, Stat::PhysicalMastery, Stat::TacticalMastery, Stat::OutgoingHealing, Stat::Resistance, Stat::CriticalDefense, Stat::IncomingHealing, Stat::Block, Stat::Parry, Stat::Evade, Stat::PhysicalMitigation, Stat::TacticalMitigation] 
}

/// The optimizer-facing stats in canonical display order.
pub fn tracked_stats() -> (v: Vec<Stat>)
    ensures
        v@ == tracked_stats_spec(),
{
    let v = vec![Stat::Morale, Stat::Power, Stat::Armor, Stat::CriticalRating, Stat::Finesse, Stat::PhysicalMastery, Stat::TacticalMastery, Stat::OutgoingHealing, Stat::Resistance, Stat::CriticalDefense, Stat::IncomingHealing, Stat::Block, Stat::Parry, Stat::Evade, Stat::PhysicalMitigation, Stat::TacticalMitigation];
    assert(v@ =~= tracked_stats_spec());
    v
}

/// The raw primary stats read as derivation inputs.
pub open spec fn base_stats_spec() -> Seq<Stat> {
    seq![Stat::Might, Stat::Agility, Stat::Vitality, Stat::Will, Stat::Fate]
}

/// The raw primary stats read as derivation inputs, in display order.
pub fn base_stats() -> (v: Vec<Stat>)
    ensures
        v@ == base_stats_spec(),
{
    let v = vec![Stat::Might, Stat::Agility, Stat::Vitality, Stat::Will, Stat::Fate];
    assert(v@ =~= base_stats_spec());
    v
}

/// The two-letter CLI abbreviation of a tracked stat.
pub open spec fn abbreviation_spec(s: Stat) -> Option<Seq<char>> {
    match s {
        Stat::Morale => Some("ml"@),
        Stat::Power => Some("pw"@),
        Stat::Armor => Some("am"@),
        Stat::CriticalRating => Some("cr"@),
        Stat::Finesse => Some("fn"@),
        Stat::PhysicalMastery => Some("pm"@),
        Stat::TacticalMastery => Some("tm"@),
        Stat::OutgoingHealing => Some("oh"@),
        Stat::Resistance => Some("rs"@),
        Stat::CriticalDefense => Some("cd"@),
        Stat::IncomingHealing => Some("ih"@),
        Stat::Block => Some("bl"@),
        Stat::Parry => Some("pa"@),
        Stat::Evade => Some("ev"@),
        Stat::PhysicalMitigation => Some("pt"@),
        Stat::TacticalMitigation => Some("tt"@),
        _ => None,
    }
}

/// Returns the canonical two-letter CLI abbreviation for tracked stats.
///
/// Mitigation uses `pt`/`tt` to avoid colliding with the mastery abbreviations
/// `pm`/`tm`.
pub fn abbreviation_for(stat: Stat) -> (r: Option<&'static str>)
    ensures
        r.is_some() == abbreviation_spec(stat).is_some(),
        r.is_some() ==> r.unwrap()@ == abbreviation_spec(stat).unwrap(),
{
    match stat {
        Stat::Morale => Some("ml"),
        Stat::Power => Some("pw"),
        Stat::Armor => Some("am"),
        Stat::CriticalRating => Some("cr"),
        Stat::Finesse => Some("fn"),
        Stat::PhysicalMastery => Some("pm"),
        Stat::TacticalMastery => Some("tm"),
        Stat::OutgoingHealing => Some("oh"),
        Stat::Resistance => Some("rs"),
        Stat::CriticalDefense => Some("cd"),
        Stat::IncomingHealing => Some("ih"),
        Stat::Block => Some("bl"),
        Stat::Parry => Some("pa"),
        Stat::Evade => Some("ev"),
        Stat::PhysicalMitigation => Some("pt"),
        Stat::TacticalMitigation => Some("tt"),
        _ => None,
    }
}

/// The stat a normalized name denotes: lowercase, with spaces, underscores
/// and hyphens removed. Abbreviations, full names and legacy spellings are
/// accepted.
pub open spec fn stat_named(n: Seq<char>) -> Option<Stat> {
    if n == "am"@ {
        Some(Stat::Armor)
    } else if n == "ml"@ {
        Some(Stat::Morale)
    } else if n == "pw"@ {
        Some(Stat::Power)
    } else if n == "cr"@ {
        Some(Stat::CriticalRating)
    } else if n == "fn"@ {
        Some(Stat::Finesse)
    } else if n == "pm"@ {
        Some(Stat::PhysicalMastery)
    } else if n == "tm"@ {
        Some(Stat::TacticalMastery)
    } else if n == "oh"@ {
        Some(Stat::OutgoingHealing)
    } else if n == "rs"@ {
        Some(Stat::Resistance)
    } else if n == "cd"@ {
        Some(Stat::CriticalDefense)
    } else if n == "ih"@ {
        Some(Stat::IncomingHealing)
    } else if n == "bl"@ {
        Some(Stat::Block)
    } else if n == "pa"@ {
        Some(Stat::Parry)
    } else if n == "ev"@ {
        Some(Stat::Evade)
    } else if n == "pt"@ {
        Some(Stat::PhysicalMitigation)
    } else if n == "tt"@ {
        Some(Stat::TacticalMitigation)
    } else if n == "armor"@ {
        Some(Stat::Armor)
    } else if n == "armour"@ {
        Some(Stat::Armor)
    } else if n == "criticalrating"@ {
        Some(Stat::CriticalRating)
    } else if n == "critrating"@ {
        Some(Stat::CriticalRating)
    } else if n == "finesse"@ {
        Some(Stat::Finesse)
    } else if n == "finesserating"@ {
        Some(Stat::Finesse)
    } else if n == "physicalmastery"@ {
        Some(Stat::PhysicalMastery)
    } else if n == "physmastery"@ {
        Some(Stat::PhysicalMastery)
    } else if n == "physmast"@ {
        Some(Stat::PhysicalMastery)
    } else if n == "tacticalmastery"@ {
        Some(Stat::TacticalMastery)
    } else if n == "tactmastery"@ {
        Some(Stat::TacticalMastery)
    } else if n == "tactmast"@ {
        Some(Stat::TacticalMastery)
    } else if n == "outgoinghealing"@ {
        Some(Stat::OutgoingHealing)
    } else if n == "outheal"@ {
        Some(Stat::OutgoingHealing)
    } else if n == "resistance"@ {
        Some(Stat::Resistance)
    } else if n == "criticaldefense"@ {
        Some(Stat::CriticalDefense)
    } else if n == "criticaldefence"@ {
        Some(Stat::CriticalDefense)
    } else if n == "critdefense"@ {
        Some(Stat::CriticalDefense)
    } else if n == "critdefence"@ {
        Some(Stat::CriticalDefense)
    } else if n == "incominghealing"@ {
        Some(Stat::IncomingHealing)
    } else if n == "incheal"@ {
        Some(Stat::IncomingHealing)
    } else if n == "block"@ {
        Some(Stat::Block)
    } else if n == "parry"@ {
        Some(Stat::Parry)
    } else if n == "evade"@ {
        Some(Stat::Evade)
    } else if n == "physicalmitigation"@ {
        Some(Stat::PhysicalMitigation)
    } else if n == "physmitigation"@ {
        Some(Stat::PhysicalMitigation)
    } else if n == "physmit"@ {
        Some(Stat::PhysicalMitigation)
    } else if n == "tacticalmitigation"@ {
        Some(Stat::TacticalMitigation)
    } else if n == "tactmitigation"@ {
        Some(Stat::TacticalMitigation)
    } else if n == "tactmit"@ {
        Some(Stat::TacticalMitigation)
    } else if n == "might"@ {
        Some(Stat::Might)
    } else if n == "agility"@ {
        Some(Stat::Agility)
    } else if n == "vitality"@ {
        Some(Stat::Vitality)
    } else if n == "will"@ {
        Some(Stat::Will)
    } else if n == "fate"@ {
        Some(Stat::Fate)
    } else if n == "morale"@ {
        Some(Stat::Morale)
    } else if n == "power"@ {
        Some(Stat::Power)
    } else if n == "devrating"@ {
        Some(Stat::DevRating)
    } else if n == "devastatingcriticalrating"@ {
        Some(Stat::DevRating)
    } else if n == "offensiveoverpower"@ {
        Some(Stat::OffensiveOverpower)
    } else if n == "overpower"@ {
        Some(Stat::OffensiveOverpower)
    } else if n == "incmitigations"@ {
        Some(Stat::IncMitigations)
    } else if n == "incmit"@ {
        Some(Stat::IncMitigations)
    } else {
        None
    }
}

/// The stat a normalized name denotes (see `stat_named`), or `None`.
pub fn stat_from_normalized(n: &[char]) -> (r: Option<Stat>)
    ensures
        r == stat_named(n@),
{
    if eq_lit(n, "am") {
        Some(Stat::Armor)
    } else if eq_lit(n, "ml") {
        Some(Stat::Morale)
    } else if eq_lit(n, "pw") {
        Some(Stat::Power)
    } else if eq_lit(n, "cr") {
        Some(Stat::CriticalRating)
    } else if eq_lit(n, "fn") {
        Some(Stat::Finesse)
    } else if eq_lit(n, "pm") {
        Some(Stat::PhysicalMastery)
    } else if eq_lit(n, "tm") {
        Some(Stat::TacticalMastery)
    } else if eq_lit(n, "oh") {
        Some(Stat::OutgoingHealing)
    } else if eq_lit(n, "rs") {
        Some(Stat::Resistance)
    } else if eq_lit(n, "cd") {
        Some(Stat::CriticalDefense)
    } else if eq_lit(n, "ih") {
        Some(Stat::IncomingHealing)
    } else if eq_lit(n, "bl") {
        Some(Stat::Block)
    } else if eq_lit(n, "pa") {
        Some(Stat::Parry)
    } else if eq_lit(n, "ev") {
        Some(Stat::Evade)
    } else if eq_lit(n, "pt") {
        Some(Stat::PhysicalMitigation)
    } else if eq_lit(n, "tt") {
        Some(Stat::TacticalMitigation)
    } else if eq_lit(n, "armor") {
        Some(Stat::Armor)
    } else if eq_lit(n, "armour") {
        Some(Stat::Armor)
    } else if eq_lit(n, "criticalrating") {
        Some(Stat::CriticalRating)
    } else if eq_lit(n, "critrating") {
        Some(Stat::CriticalRating)
    } else if eq_lit(n, "finesse") {
        Some(Stat::Finesse)
    } else if eq_lit(n, "finesserating") {
        Some(Stat::Finesse)
    } else if eq_lit(n, "physicalmastery") {
        Some(Stat::PhysicalMastery)
    } else if eq_lit(n, "physmastery") {
        Some(Stat::PhysicalMastery)
    } else if eq_lit(n, "physmast") {
        Some(Stat::PhysicalMastery)
    } else if eq_lit(n, "tacticalmastery") {
        Some(Stat::TacticalMastery)
    } else if eq_lit(n, "tactmastery") {
        Some(Stat::TacticalMastery)
    } else if eq_lit(n, "tactmast") {
        Some(Stat::TacticalMastery)
    } else if eq_lit(n, "outgoinghealing") {
        Some(Stat::OutgoingHealing)
    } else if eq_lit(n, "outheal") {
        Some(Stat::OutgoingHealing)
    } else if eq_lit(n, "resistance") {
        Some(Stat::Resistance)
    } else if eq_lit(n, "criticaldefense") {
        Some(Stat::CriticalDefense)
    } else if eq_lit(n, "criticaldefence") {
        Some(Stat::CriticalDefense)
    } else if eq_lit(n, "critdefense") {
        Some(Stat::CriticalDefense)
    } else if eq_lit(n, "critdefence") {
        Some(Stat::CriticalDefense)
    } else if eq_lit(n, "incominghealing") {
        Some(Stat::IncomingHealing)
    } else if eq_lit(n, "incheal") {
        Some(Stat::IncomingHealing)
    } else if eq_lit(n, "block") {
        Some(Stat::Block)
    } else if eq_lit(n, "parry") {
        Some(Stat::Parry)
    } else if eq_lit(n, "evade") {
        Some(Stat::Evade)
    } else if eq_lit(n, "physicalmitigation") {
        Some(Stat::PhysicalMitigation)
    } else if eq_lit(n, "physmitigation") {
        Some(Stat::PhysicalMitigation)
    } else if eq_lit(n, "physmit") {
        Some(Stat::PhysicalMitigation)
    } else if eq_lit(n, "tacticalmitigation") {
        Some(Stat::TacticalMitigation)
    } else if eq_lit(n, "tactmitigation") {
        Some(Stat::TacticalMitigation)
    } else if eq_lit(n, "tactmit") {
        Some(Stat::TacticalMitigation)
    } else if eq_lit(n, "might") {
        Some(Stat::Might)
    } else if eq_lit(n, "agility") {
        Some(Stat::Agility)
    } else if eq_lit(n, "vitality") {
        Some(Stat::Vitality)
    } else if eq_lit(n, "will") {
        Some(Stat::Will)
    } else if eq_lit(n, "fate") {
        Some(Stat::Fate)
    } else if eq_lit(n, "morale") {
        Some(Stat::Morale)
    } else if eq_lit(n, "power") {
        Some(Stat::Power)
    } else if eq_lit(n, "devrating") {
        Some(Stat::DevRating)
    } else if eq_lit(n, "devastatingcriticalrating") {
        Some(Stat::DevRating)
    } else if eq_lit(n, "offensiveoverpower") {
        Some(Stat::OffensiveOverpower)
    } else if eq_lit(n, "overpower") {
        Some(Stat::OffensiveOverpower)
    } else if eq_lit(n, "incmitigations") {
        Some(Stat::IncMitigations)
    } else if eq_lit(n, "incmit") {
        Some(Stat::IncMitigations)
    } else {
        None
    }
}

/// The separators dropped when normalizing a stat name.
pub open spec fn stat_name_separators() -> Seq<char> {
    seq![' ', '_', '-']
}

/// The normalized form of a stat name: Unicode-lowercased, with spaces,
/// underscores and hyphens removed.
pub open spec fn normalize_stat_name(s: Seq<char>) -> Seq<char> {
    without_chars(unicode_lowercase(s), stat_name_separators())
}

/// Stat names that read the same once lowercased and stripped of spaces,
/// underscores and hyphens name the same stat, or both name none.
pub proof fn lemma_stat_names_normalized(a: Seq<char>, b: Seq<char>)
    requires
        normalize_stat_name(a) == normalize_stat_name(b),
    ensures
        stat_named(normalize_stat_name(a)) == stat_named(normalize_stat_name(b)),
{
}

proof fn lemma_two_letters_kept(t: Seq<char>)
    requires
        t.len() == 2,
        'a' <= t[0] <= 'z',
        'a' <= t[1] <= 'z',
    ensures
        crate::text::without_chars(t, stat_name_separators()) == t,
{
    let keep = |c: char| !stat_name_separators().contains(c);
    assert(!stat_name_separators().contains(t[0]));
    assert(!stat_name_separators().contains(t[1]));
    assert(t.drop_last().drop_last() =~= Seq::<char>::empty());
    reveal_with_fuel(Seq::filter, 3);
    assert(t.filter(keep) =~= t);
}

/// Each tracked stat's abbreviation parses back to that stat, given that
/// Unicode lowercasing leaves the (already lowercase ASCII) abbreviation as
/// it is.
pub proof fn lemma_abbreviation_round_trip(s: Stat)
    requires
        abbreviation_spec(s) is Some,
        unicode_lowercase(abbreviation_spec(s)->0) == abbreviation_spec(s)->0,
    ensures
        stat_named(normalize_stat_name(abbreviation_spec(s)->0)) == Some(s),
{
    match s {
        Stat::Armor => {
            reveal_strlit("am");
            lemma_two_letters_kept("am"@);
        },
        Stat::Morale => {
            reveal_strlit("ml");
            assert("ml"@ != "am"@) by {
                reveal_strlit("am");
                assert("ml"@[0] != "am"@[0] || "ml"@[1] != "am"@[1]);
            }
            lemma_two_letters_kept("ml"@);
        },
        Stat::Power => {
            reveal_strlit("pw");
            assert("pw"@ != "am"@) by {
                reveal_strlit("am");
                assert("pw"@[0] != "am"@[0] || "pw"@[1] != "am"@[1]);
            }
            assert("pw"@ != "ml"@) by {
                reveal_strlit("ml");
                assert("pw"@[0] != "ml"@[0] || "pw"@[1] != "ml"@[1]);
            }
            lemma_two_letters_kept("pw"@);
        },
        Stat::CriticalRating => {
            reveal_strlit("cr");
            assert("cr"@ != "am"@) by {
                reveal_strlit("am");
                assert("cr"@[0] != "am"@[0] || "cr"@[1] != "am"@[1]);
            }
            assert("cr"@ != "ml"@) by {
                reveal_strlit("ml");
                assert("cr"@[0] != "ml"@[0] || "cr"@[1] != "ml"@[1]);
            }
            assert("cr"@ != "pw"@) by {
                reveal_strlit("pw");
                assert("cr"@[0] != "pw"@[0] || "cr"@[1] != "pw"@[1]);
            }
            lemma_two_letters_kept("cr"@);
        },
        Stat::Finesse => {
            reveal_strlit("fn");
            assert("fn"@ != "am"@) by {
                reveal_strlit("am");
                assert("fn"@[0] != "am"@[0] || "fn"@[1] != "am"@[1]);
            }
            assert("fn"@ != "ml"@) by {
                reveal_strlit("ml");
                assert("fn"@[0] != "ml"@[0] || "fn"@[1] != "ml"@[1]);
            }
            assert("fn"@ != "pw"@) by {
                reveal_strlit("pw");
                assert("fn"@[0] != "pw"@[0] || "fn"@[1] != "pw"@[1]);
            }
            assert("fn"@ != "cr"@) by {
                reveal_strlit("cr");
                assert("fn"@[0] != "cr"@[0] || "fn"@[1] != "cr"@[1]);
            }
            lemma_two_letters_kept("fn"@);
        },
        Stat::PhysicalMastery => {
            reveal_strlit("pm");
            assert("pm"@ != "am"@) by {
                reveal_strlit("am");
                assert("pm"@[0] != "am"@[0] || "pm"@[1] != "am"@[1]);
            }
            assert("pm"@ != "ml"@) by {
                reveal_strlit("ml");
                assert("pm"@[0] != "ml"@[0] || "pm"@[1] != "ml"@[1]);
            }
            assert("pm"@ != "pw"@) by {
                reveal_strlit("pw");
                assert("pm"@[0] != "pw"@[0] || "pm"@[1] != "pw"@[1]);
            }
            assert("pm"@ != "cr"@) by {
                reveal_strlit("cr");
                assert("pm"@[0] != "cr"@[0] || "pm"@[1] != "cr"@[1]);
            }
            assert("pm"@ != "fn"@) by {
                reveal_strlit("fn");
                assert("pm"@[0] != "fn"@[0] || "pm"@[1] != "fn"@[1]);
            }
            lemma_two_letters_kept("pm"@);
        },
        Stat::TacticalMastery => {
            reveal_strlit("tm");
            assert("tm"@ != "am"@) by {
                reveal_strlit("am");
                assert("tm"@[0] != "am"@[0] || "tm"@[1] != "am"@[1]);
            }
            assert("tm"@ != "ml"@) by {
                reveal_strlit("ml");
                assert("tm"@[0] != "ml"@[0] || "tm"@[1] != "ml"@[1]);
            }
            assert("tm"@ != "pw"@) by {
                reveal_strlit("pw");
                assert("tm"@[0] != "pw"@[0] || "tm"@[1] != "pw"@[1]);
            }
            assert("tm"@ != "cr"@) by {
                reveal_strlit("cr");
                assert("tm"@[0] != "cr"@[0] || "tm"@[1] != "cr"@[1]);
            }
            assert("tm"@ != "fn"@) by {
                reveal_strlit("fn");
                assert("tm"@[0] != "fn"@[0] || "tm"@[1] != "fn"@[1]);
            }
            assert("tm"@ != "pm"@) by {
                reveal_strlit("pm");
                assert("tm"@[0] != "pm"@[0] || "tm"@[1] != "pm"@[1]);
            }
            lemma_two_letters_kept("tm"@);
        },
        Stat::OutgoingHealing => {
            reveal_strlit("oh");
            assert("oh"@ != "am"@) by {
                reveal_strlit("am");
                assert("oh"@[0] != "am"@[0] || "oh"@[1] != "am"@[1]);
            }
            assert("oh"@ != "ml"@) by {
                reveal_strlit("ml");
                assert("oh"@[0] != "ml"@[0] || "oh"@[1] != "ml"@[1]);
            }
            assert("oh"@ != "pw"@) by {
                reveal_strlit("pw");
                assert("oh"@[0] != "pw"@[0] || "oh"@[1] != "pw"@[1]);
            }
            assert("oh"@ != "cr"@) by {
                reveal_strlit("cr");
                assert("oh"@[0] != "cr"@[0] || "oh"@[1] != "cr"@[1]);
            }
            assert("oh"@ != "fn"@) by {
                reveal_strlit("fn");
                assert("oh"@[0] != "fn"@[0] || "oh"@[1] != "fn"@[1]);
            }
            assert("oh"@ != "pm"@) by {
                reveal_strlit("pm");
                assert("oh"@[0] != "pm"@[0] || "oh"@[1] != "pm"@[1]);
            }
            assert("oh"@ != "tm"@) by {
                reveal_strlit("tm");
                assert("oh"@[0] != "tm"@[0] || "oh"@[1] != "tm"@[1]);
            }
            lemma_two_letters_kept("oh"@);
        },
        Stat::Resistance => {
            reveal_strlit("rs");
            assert("rs"@ != "am"@) by {
                reveal_strlit("am");
                assert("rs"@[0] != "am"@[0] || "rs"@[1] != "am"@[1]);
            }
            assert("rs"@ != "ml"@) by {
                reveal_strlit("ml");
                assert("rs"@[0] != "ml"@[0] || "rs"@[1] != "ml"@[1]);
            }
            assert("rs"@ != "pw"@) by {
                reveal_strlit("pw");
                assert("rs"@[0] != "pw"@[0] || "rs"@[1] != "pw"@[1]);
            }
            assert("rs"@ != "cr"@) by {
                reveal_strlit("cr");
                assert("rs"@[0] != "cr"@[0] || "rs"@[1] != "cr"@[1]);
            }
            assert("rs"@ != "fn"@) by {
                reveal_strlit("fn");
                assert("rs"@[0] != "fn"@[0] || "rs"@[1] != "fn"@[1]);
            }
            assert("rs"@ != "pm"@) by {
                reveal_strlit("pm");
                assert("rs"@[0] != "pm"@[0] || "rs"@[1] != "pm"@[1]);
            }
            assert("rs"@ != "tm"@) by {
                reveal_strlit("tm");
                assert("rs"@[0] != "tm"@[0] || "rs"@[1] != "tm"@[1]);
            }
            assert("rs"@ != "oh"@) by {
                reveal_strlit("oh");
                assert("rs"@[0] != "oh"@[0] || "rs"@[1] != "oh"@[1]);
            }
            lemma_two_letters_kept("rs"@);
        },
        Stat::CriticalDefense => {
            reveal_strlit("cd");
            assert("cd"@ != "am"@) by {
                reveal_strlit("am");
                assert("cd"@[0] != "am"@[0] || "cd"@[1] != "am"@[1]);
            }
            assert("cd"@ != "ml"@) by {
                reveal_strlit("ml");
                assert("cd"@[0] != "ml"@[0] || "cd"@[1] != "ml"@[1]);
            }
            assert("cd"@ != "pw"@) by {
                reveal_strlit("pw");
                assert("cd"@[0] != "pw"@[0] || "cd"@[1] != "pw"@[1]);
            }
            assert("cd"@ != "cr"@) by {
                reveal_strlit("cr");
                assert("cd"@[0] != "cr"@[0] || "cd"@[1] != "cr"@[1]);
            }
            assert("cd"@ != "fn"@) by {
                reveal_strlit("fn");
                assert("cd"@[0] != "fn"@[0] || "cd"@[1] != "fn"@[1]);
            }
            assert("cd"@ != "pm"@) by {
                reveal_strlit("pm");
                assert("cd"@[0] != "pm"@[0] || "cd"@[1] != "pm"@[1]);
            }
            assert("cd"@ != "tm"@) by {
                reveal_strlit("tm");
                assert("cd"@[0] != "tm"@[0] || "cd"@[1] != "tm"@[1]);
            }
            assert("cd"@ != "oh"@) by {
                reveal_strlit("oh");
                assert("cd"@[0] != "oh"@[0] || "cd"@[1] != "oh"@[1]);
            }
            assert("cd"@ != "rs"@) by {
                reveal_strlit("rs");
                assert("cd"@[0] != "rs"@[0] || "cd"@[1] != "rs"@[1]);
            }
            lemma_two_letters_kept("cd"@);
        },
        Stat::IncomingHealing => {
            reveal_strlit("ih");
            assert("ih"@ != "am"@) by {
                reveal_strlit("am");
                assert("ih"@[0] != "am"@[0] || "ih"@[1] != "am"@[1]);
            }
            assert("ih"@ != "ml"@) by {
                reveal_strlit("ml");
                assert("ih"@[0] != "ml"@[0] || "ih"@[1] != "ml"@[1]);
            }
            assert("ih"@ != "pw"@) by {
                reveal_strlit("pw");
                assert("ih"@[0] != "pw"@[0] || "ih"@[1] != "pw"@[1]);
            }
            assert("ih"@ != "cr"@) by {
                reveal_strlit("cr");
                assert("ih"@[0] != "cr"@[0] || "ih"@[1] != "cr"@[1]);
            }
            assert("ih"@ != "fn"@) by {
                reveal_strlit("fn");
                assert("ih"@[0] != "fn"@[0] || "ih"@[1] != "fn"@[1]);
            }
            assert("ih"@ != "pm"@) by {
                reveal_strlit("pm");
                assert("ih"@[0] != "pm"@[0] || "ih"@[1] != "pm"@[1]);
            }
            assert("ih"@ != "tm"@) by {
                reveal_strlit("tm");
                assert("ih"@[0] != "tm"@[0] || "ih"@[1] != "tm"@[1]);
            }
            assert("ih"@ != "oh"@) by {
                reveal_strlit("oh");
                assert("ih"@[0] != "oh"@[0] || "ih"@[1] != "oh"@[1]);
            }
            assert("ih"@ != "rs"@) by {
                reveal_strlit("rs");
                assert("ih"@[0] != "rs"@[0] || "ih"@[1] != "rs"@[1]);
            }
            assert("ih"@ != "cd"@) by {
                reveal_strlit("cd");
                assert("ih"@[0] != "cd"@[0] || "ih"@[1] != "cd"@[1]);
            }
            lemma_two_letters_kept("ih"@);
        },
        Stat::Block => {
            reveal_strlit("bl");
            assert("bl"@ != "am"@) by {
                reveal_strlit("am");
                assert("bl"@[0] != "am"@[0] || "bl"@[1] != "am"@[1]);
            }
            assert("bl"@ != "ml"@) by {
                reveal_strlit("ml");
                assert("bl"@[0] != "ml"@[0] || "bl"@[1] != "ml"@[1]);
            }
            assert("bl"@ != "pw"@) by {
                reveal_strlit("pw");
                assert("bl"@[0] != "pw"@[0] || "bl"@[1] != "pw"@[1]);
            }
            assert("bl"@ != "cr"@) by {
                reveal_strlit("cr");
                assert("bl"@[0] != "cr"@[0] || "bl"@[1] != "cr"@[1]);
            }
            assert("bl"@ != "fn"@) by {
                reveal_strlit("fn");
                assert("bl"@[0] != "fn"@[0] || "bl"@[1] != "fn"@[1]);
            }
            assert("bl"@ != "pm"@) by {
                reveal_strlit("pm");
                assert("bl"@[0] != "pm"@[0] || "bl"@[1] != "pm"@[1]);
            }
            assert("bl"@ != "tm"@) by {
                reveal_strlit("tm");
                assert("bl"@[0] != "tm"@[0] || "bl"@[1] != "tm"@[1]);
            }
            assert("bl"@ != "oh"@) by {
                reveal_strlit("oh");
                assert("bl"@[0] != "oh"@[0] || "bl"@[1] != "oh"@[1]);
            }
            assert("bl"@ != "rs"@) by {
                reveal_strlit("rs");
                assert("bl"@[0] != "rs"@[0] || "bl"@[1] != "rs"@[1]);
            }
            assert("bl"@ != "cd"@) by {
                reveal_strlit("cd");
                assert("bl"@[0] != "cd"@[0] || "bl"@[1] != "cd"@[1]);
            }
            assert("bl"@ != "ih"@) by {
                reveal_strlit("ih");
                assert("bl"@[0] != "ih"@[0] || "bl"@[1] != "ih"@[1]);
            }
            lemma_two_letters_kept("bl"@);
        },
        Stat::Parry => {
            reveal_strlit("pa");
            assert("pa"@ != "am"@) by {
                reveal_strlit("am");
                assert("pa"@[0] != "am"@[0] || "pa"@[1] != "am"@[1]);
            }
            assert("pa"@ != "ml"@) by {
                reveal_strlit("ml");
                assert("pa"@[0] != "ml"@[0] || "pa"@[1] != "ml"@[1]);
            }
            assert("pa"@ != "pw"@) by {
                reveal_strlit("pw");
                assert("pa"@[0] != "pw"@[0] || "pa"@[1] != "pw"@[1]);
            }
            assert("pa"@ != "cr"@) by {
                reveal_strlit("cr");
                assert("pa"@[0] != "cr"@[0] || "pa"@[1] != "cr"@[1]);
            }
            assert("pa"@ != "fn"@) by {
                reveal_strlit("fn");
                assert("pa"@[0] != "fn"@[0] || "pa"@[1] != "fn"@[1]);
            }
            assert("pa"@ != "pm"@) by {
                reveal_strlit("pm");
                assert("pa"@[0] != "pm"@[0] || "pa"@[1] != "pm"@[1]);
            }
            assert("pa"@ != "tm"@) by {
                reveal_strlit("tm");
                assert("pa"@[0] != "tm"@[0] || "pa"@[1] != "tm"@[1]);
            }
            assert("pa"@ != "oh"@) by {
                reveal_strlit("oh");
                assert("pa"@[0] != "oh"@[0] || "pa"@[1] != "oh"@[1]);
            }
            assert("pa"@ != "rs"@) by {
                reveal_strlit("rs");
                assert("pa"@[0] != "rs"@[0] || "pa"@[1] != "rs"@[1]);
            }
            assert("pa"@ != "cd"@) by {
                reveal_strlit("cd");
                assert("pa"@[0] != "cd"@[0] || "pa"@[1] != "cd"@[1]);
            }
            assert("pa"@ != "ih"@) by {
                reveal_strlit("ih");
                assert("pa"@[0] != "ih"@[0] || "pa"@[1] != "ih"@[1]);
            }
            assert("pa"@ != "bl"@) by {
                reveal_strlit("bl");
                assert("pa"@[0] != "bl"@[0] || "pa"@[1] != "bl"@[1]);
            }
            lemma_two_letters_kept("pa"@);
        },
        Stat::Evade => {
            reveal_strlit("ev");
            assert("ev"@ != "am"@) by {
                reveal_strlit("am");
                assert("ev"@[0] != "am"@[0] || "ev"@[1] != "am"@[1]);
            }
            assert("ev"@ != "ml"@) by {
                reveal_strlit("ml");
                assert("ev"@[0] != "ml"@[0] || "ev"@[1] != "ml"@[1]);
            }
            assert("ev"@ != "pw"@) by {
                reveal_strlit("pw");
                assert("ev"@[0] != "pw"@[0] || "ev"@[1] != "pw"@[1]);
            }
            assert("ev"@ != "cr"@) by {
                reveal_strlit("cr");
                assert("ev"@[0] != "cr"@[0] || "ev"@[1] != "cr"@[1]);
            }
            assert("ev"@ != "fn"@) by {
                reveal_strlit("fn");
                assert("ev"@[0] != "fn"@[0] || "ev"@[1] != "fn"@[1]);
            }
            assert("ev"@ != "pm"@) by {
                reveal_strlit("pm");
                assert("ev"@[0] != "pm"@[0] || "ev"@[1] != "pm"@[1]);
            }
            assert("ev"@ != "tm"@) by {
                reveal_strlit("tm");
                assert("ev"@[0] != "tm"@[0] || "ev"@[1] != "tm"@[1]);
            }
            assert("ev"@ != "oh"@) by {
                reveal_strlit("oh");
                assert("ev"@[0] != "oh"@[0] || "ev"@[1] != "oh"@[1]);
            }
            assert("ev"@ != "rs"@) by {
                reveal_strlit("rs");
                assert("ev"@[0] != "rs"@[0] || "ev"@[1] != "rs"@[1]);
            }
            assert("ev"@ != "cd"@) by {
                reveal_strlit("cd");
                assert("ev"@[0] != "cd"@[0] || "ev"@[1] != "cd"@[1]);
            }
            assert("ev"@ != "ih"@) by {
                reveal_strlit("ih");
                assert("ev"@[0] != "ih"@[0] || "ev"@[1] != "ih"@[1]);
            }
            assert("ev"@ != "bl"@) by {
                reveal_strlit("bl");
                assert("ev"@[0] != "bl"@[0] || "ev"@[1] != "bl"@[1]);
            }
            assert("ev"@ != "pa"@) by {
                reveal_strlit("pa");
                assert("ev"@[0] != "pa"@[0] || "ev"@[1] != "pa"@[1]);
            }
            lemma_two_letters_kept("ev"@);
        },
        Stat::PhysicalMitigation => {
            reveal_strlit("pt");
            assert("pt"@ != "am"@) by {
                reveal_strlit("am");
                assert("pt"@[0] != "am"@[0] || "pt"@[1] != "am"@[1]);
            }
            assert("pt"@ != "ml"@) by {
                reveal_strlit("ml");
                assert("pt"@[0] != "ml"@[0] || "pt"@[1] != "ml"@[1]);
            }
            assert("pt"@ != "pw"@) by {
                reveal_strlit("pw");
                assert("pt"@[0] != "pw"@[0] || "pt"@[1] != "pw"@[1]);
            }
            assert("pt"@ != "cr"@) by {
                reveal_strlit("cr");
                assert("pt"@[0] != "cr"@[0] || "pt"@[1] != "cr"@[1]);
            }
            assert("pt"@ != "fn"@) by {
                reveal_strlit("fn");
                assert("pt"@[0] != "fn"@[0] || "pt"@[1] != "fn"@[1]);
            }
            assert("pt"@ != "pm"@) by {
                reveal_strlit("pm");
                assert("pt"@[0] != "pm"@[0] || "pt"@[1] != "pm"@[1]);
            }
            assert("pt"@ != "tm"@) by {
                reveal_strlit("tm");
                assert("pt"@[0] != "tm"@[0] || "pt"@[1] != "tm"@[1]);
            }
            assert("pt"@ != "oh"@) by {
                reveal_strlit("oh");
                assert("pt"@[0] != "oh"@[0] || "pt"@[1] != "oh"@[1]);
            }
            assert("pt"@ != "rs"@) by {
                reveal_strlit("rs");
                assert("pt"@[0] != "rs"@[0] || "pt"@[1] != "rs"@[1]);
            }
            assert("pt"@ != "cd"@) by {
                reveal_strlit("cd");
                assert("pt"@[0] != "cd"@[0] || "pt"@[1] != "cd"@[1]);
            }
            assert("pt"@ != "ih"@) by {
                reveal_strlit("ih");
                assert("pt"@[0] != "ih"@[0] || "pt"@[1] != "ih"@[1]);
            }
            assert("pt"@ != "bl"@) by {
                reveal_strlit("bl");
                assert("pt"@[0] != "bl"@[0] || "pt"@[1] != "bl"@[1]);
            }
            assert("pt"@ != "pa"@) by {
                reveal_strlit("pa");
                assert("pt"@[0] != "pa"@[0] || "pt"@[1] != "pa"@[1]);
            }
            assert("pt"@ != "ev"@) by {
                reveal_strlit("ev");
                assert("pt"@[0] != "ev"@[0] || "pt"@[1] != "ev"@[1]);
            }
            lemma_two_letters_kept("pt"@);
        },
        Stat::TacticalMitigation => {
            reveal_strlit("tt");
            assert("tt"@ != "am"@) by {
                reveal_strlit("am");
                assert("tt"@[0] != "am"@[0] || "tt"@[1] != "am"@[1]);
            }
            assert("tt"@ != "ml"@) by {
                reveal_strlit("ml");
                assert("tt"@[0] != "ml"@[0] || "tt"@[1] != "ml"@[1]);
            }
            assert("tt"@ != "pw"@) by {
                reveal_strlit("pw");
                assert("tt"@[0] != "pw"@[0] || "tt"@[1] != "pw"@[1]);
            }
            assert("tt"@ != "cr"@) by {
                reveal_strlit("cr");
                assert("tt"@[0] != "cr"@[0] || "tt"@[1] != "cr"@[1]);
            }
            assert("tt"@ != "fn"@) by {
                reveal_strlit("fn");
                assert("tt"@[0] != "fn"@[0] || "tt"@[1] != "fn"@[1]);
            }
            assert("tt"@ != "pm"@) by {
                reveal_strlit("pm");
                assert("tt"@[0] != "pm"@[0] || "tt"@[1] != "pm"@[1]);
            }
            assert("tt"@ != "tm"@) by {
                reveal_strlit("tm");
                assert("tt"@[0] != "tm"@[0] || "tt"@[1] != "tm"@[1]);
            }
            assert("tt"@ != "oh"@) by {
                reveal_strlit("oh");
                assert("tt"@[0] != "oh"@[0] || "tt"@[1] != "oh"@[1]);
            }
            assert("tt"@ != "rs"@) by {
                reveal_strlit("rs");
                assert("tt"@[0] != "rs"@[0] || "tt"@[1] != "rs"@[1]);
            }
            assert("tt"@ != "cd"@) by {
                reveal_strlit("cd");
                assert("tt"@[0] != "cd"@[0] || "tt"@[1] != "cd"@[1]);
            }
            assert("tt"@ != "ih"@) by {
                reveal_strlit("ih");
                assert("tt"@[0] != "ih"@[0] || "tt"@[1] != "ih"@[1]);
            }
            assert("tt"@ != "bl"@) by {
                reveal_strlit("bl");
                assert("tt"@[0] != "bl"@[0] || "tt"@[1] != "bl"@[1]);
            }
            assert("tt"@ != "pa"@) by {
                reveal_strlit("pa");
                assert("tt"@[0] != "pa"@[0] || "tt"@[1] != "pa"@[1]);
            }
            assert("tt"@ != "ev"@) by {
                reveal_strlit("ev");
                assert("tt"@[0] != "ev"@[0] || "tt"@[1] != "ev"@[1]);
            }
            assert("tt"@ != "pt"@) by {
                reveal_strlit("pt");
                assert("tt"@[0] != "pt"@[0] || "tt"@[1] != "pt"@[1]);
            }
            lemma_two_letters_kept("tt"@);
        },
        _ => {},
    }
}

/// The error text for an unrecognized stat name.
pub open spec fn unknown_stat_message(s: Seq<char>) -> Seq<char> {
    "Unknown stat: '"@ + s + "'"@
}

/// Parses a stat name (abbreviation, full name, or legacy spelling),
/// case-insensitively and ignoring spaces, underscores and hyphens.
pub fn parse_stat(s: &str) -> (r: Result<Stat, String>)
    ensures
        stat_named(normalize_stat_name(s@)) matches Some(st) ==> r == Ok::<Stat, String>(st),
        stat_named(normalize_stat_name(s@)) is None ==> (r matches Err(e) && e@ == unknown_stat_message(s@)),
        (forall|i: int| 0 <= i < s@.len() ==> (#[trigger] s@[i] as int) < 128) ==> (stat_named(
            crate::text::without_chars(crate::text::ascii_lower(s@), stat_name_separators()),
        ) matches Some(st) ==> r == Ok::<Stat, String>(st)),
{
    let lower = to_lowercase(s);
    let lower_chars = crate::text::chars_of(lower.as_str());
    let seps = vec![' ', '_', '-'];
    assert(seps@ =~= stat_name_separators());
    let norm = remove_chars(lower_chars.as_slice(), seps.as_slice());
    match stat_from_normalized(norm.as_slice()) {
        Some(st) => Ok(st),
        None => Err(concat3("Unknown stat: '", s, "'")),
    }
}

/// A stat with an associated minimum value, parsed from CLI input.
/// Format: `StatName:minimum`, e.g. `CriticalRating:450000`.
/// A minimum of 0 means "maximise but no floor required".
#[derive(Debug, Clone, Copy, PartialEq, Eq, Structural)]
pub struct StatGoal {
    pub stat: Stat,
    pub minimum: i64,
}

/// The first position of `c` in `s`, if any.
pub open spec fn first_index_of(s: Seq<char>, c: char) -> Option<int> {
    if exists|i: int| 0 <= i < s.len() && s[i] == c {
        Some(choose|i: int| 0 <= i < s.len() && s[i] == c && forall|j: int| 0 <= j < i ==> s[j] != c)
    } else {
        None
    }
}

/// The error text for a goal whose minimum is not an integer.
pub open spec fn invalid_minimum_message(min_str: Seq<char>, goal: Seq<char>) -> Seq<char> {
    "Invalid minimum '"@ + min_str + "' in goal '"@ + goal + "'"@
}

/// What parsing `StatName:minimum` (or a bare stat name, minimum 0) gives.
pub open spec fn parse_goal_spec(s: Seq<char>) -> Result<StatGoal, Seq<char>> {
    match first_index_of(s, ':') {
        Some(k) => {
            let name = s.subrange(0, k);
            let min_str = s.subrange(k + 1, s.len() as int);
            match stat_named(normalize_stat_name(name)) {
                None => Err(unknown_stat_message(name)),
                Some(stat) => match parse_i64_spec(min_str) {
                    None => Err(invalid_minimum_message(min_str, s)),
                    Some(minimum) => Ok(StatGoal { stat, minimum }),
                },
            }
        },
        None => match stat_named(normalize_stat_name(s)) {
            None => Err(unknown_stat_message(s)),
            Some(stat) => Ok(StatGoal { stat, minimum: 0 }),
        },
    }
}

/// Position of the first `c` in `v`, if any.
pub fn find_char(v: &[char], c: char) -> (r: Option<usize>)
    ensures
        r matches Some(k) ==> first_index_of(v@, c) == Some(k as int),
        r is None ==> first_index_of(v@, c) is None,
        r matches Some(k) ==> k < v@.len() && v@[k as int] == c,
{
    let mut i: usize = 0;
    while i < v.len()
        invariant
            i <= v@.len(),
            forall|j: int| 0 <= j < i ==> v@[j] != c,
        decreases v@.len() - i,
    {
        if v[i] == c {
            assert(exists|j: int| 0 <= j < v@.len() && v@[j] == c);
            let ghost k = first_index_of(v@, c).unwrap();
            assert(k == i) by {
                if k < i {
                } else if k > i {
                }
            }
            return Some(i);
        }
        i += 1;
    }
    None
}

/// Copies `v[from..to]` into a new vector.
pub fn slice_chars(v: &[char], from: usize, to: usize) -> (r: Vec<char>)
    requires
        from <= to <= v@.len(),
    ensures
        r@ == v@.subrange(from as int, to as int),
{
    let mut r: Vec<char> = Vec::new();
    let mut i = from;
    while i < to
        invariant
            from <= i <= to,
            to <= v@.len(),
            r@ == v@.subrange(from as int, i as int),
        decreases to - i,
    {
        r.push(v[i]);
        i += 1;
        assert(r@ =~= v@.subrange(from as int, i as int));
    }
    r
}

/// Parses a goal: `StatName:minimum`, or a bare stat name with minimum 0.
pub fn parse_goal(s: &str) -> (r: Result<StatGoal, String>)
    ensures
        match parse_goal_spec(s@) {
            Ok(g) => r == Ok::<StatGoal, String>(g),
            Err(m) => r matches Err(e) && e@ == m,
        },
{
    let chars = crate::text::chars_of(s);
    match find_char(chars.as_slice(), ':') {
        Some(k) => {
            assert(k < chars.len());
            assert(first_index_of(s@, ':') == Some(k as int));
            let name_chars = slice_chars(chars.as_slice(), 0, k);
            let min_chars = slice_chars(chars.as_slice(), k + 1, chars.len());
            let name = string_from_chars(name_chars.as_slice());
            assert(name@ == s@.subrange(0, k as int));
            let stat = match parse_stat(name.as_str()) {
                Ok(st) => st,
                Err(e) => return Err(e),
            };
            match parse_i64(min_chars.as_slice()) {
                Some(minimum) => Ok(StatGoal { stat, minimum }),
                None => {
                    let min_str = string_from_chars(min_chars.as_slice());
                    let mut msg = concat3("Invalid minimum '", min_str.as_str(), "' in goal '");
                    msg.append(s);
                    msg.append("'");
                    Err(msg)
                },
            }
        },
        None => match parse_stat(s) {
            Ok(stat) => Ok(StatGoal { stat, minimum: 0 }),
            Err(e) => Err(e),
        },
    }
}

/// A value for every stat; stats never set read as 0.
#[derive(Debug, Clone, Copy)]
pub struct StatMap {
    vals: [i64; 24],
}

impl StatMap {
    /// The value recorded for `s`.
    pub closed spec fn value(self, s: Stat) -> i64 {
        self.vals@[stat_index_spec(s)]
    }

    /// The map with every stat at 0.
    pub closed spec fn zero() -> StatMap {
        StatMap { vals: vstd::array::spec_array_fill_for_copy_type::<i64, 24>(0i64) }
    }

    /// Every stat of the zero map is 0.
    pub proof fn lemma_zero()
        ensures
            forall|s: Stat| #[trigger] StatMap::zero().value(s) == 0,
    {
        vstd::array::axiom_spec_array_fill_for_copy_type::<i64, 24>(0i64);
        assert forall|s: Stat| #[trigger] StatMap::zero().value(s) == 0 by {
            assert(0 <= stat_index_spec(s) < 24);
        }
    }

    /// Maps with the same value for every stat are equal.
    pub proof fn lemma_ext(a: StatMap, b: StatMap)
        requires
            forall|s: Stat| #[trigger] a.value(s) == b.value(s),
        ensures
            a == b,
    {
        assert forall|i: int| 0 <= i < 24 implies a.vals@[i] == b.vals@[i] by {
            lemma_stat_index_bijective();
            assert(stat_index_spec(stat_at(i)) == i) by {
                assert(0 <= i < 24);
            }
            assert(a.value(stat_at(i)) == b.value(stat_at(i)));
        }
        vstd::array::axiom_array_ext_equal(a.vals, b.vals);
        assert(a.vals =~= b.vals);
    }

    /// A map with every stat at 0.
    pub fn new() -> (m: StatMap)
        ensures
            m == StatMap::zero(),
            forall|s: Stat| #[trigger] m.value(s) == 0,
    {
        let m = StatMap { vals: [0i64; 24] };
        proof {
            StatMap::lemma_zero();
            assert forall|s: Stat| #[trigger] m.value(s) == StatMap::zero().value(s) by {
                assert(0 <= stat_index_spec(s) < 24);
            }
            StatMap::lemma_ext(m, StatMap::zero());
        }
        m
    }

    /// The value recorded for `s` (0 when never set).
    pub fn get(&self, s: Stat) -> (v: i64)
        ensures
            v == self.value(s),
    {
        proof {
            vstd::array::lemma_array_index(self.vals, stat_index_spec(s));
        }
        self.vals[stat_index(s)]
    }

    /// Records `v` for `s`, leaving every other stat unchanged.
    pub fn set(&mut self, s: Stat, v: i64)
        ensures
            final(self).value(s) == v,
            forall|t: Stat| t != s ==> #[trigger] final(self).value(t) == old(self).value(t),
    {
        let i = stat_index(s);
        self.vals[i] = v;
        proof {
            lemma_stat_index_bijective();
        }
    }

    /// Whether adding `other`'s values keeps every stat an `i64`.
    pub fn sum_fits(&self, other: &StatMap) -> (r: bool)
        ensures
            r == forall|s: Stat| #![trigger self.value(s)] in_i64_range(self.value(s) + other.value(s)),
    {
        let mut i: usize = 0;
        while i < 24
            invariant
                i <= 24,
                forall|s: Stat| stat_index_spec(s) < i ==> #[trigger] in_i64_range(self.value(s) + other.value(s)),
            decreases 24 - i,
        {
            let ghost st = stat_at(i as int);
            proof {
                lemma_stat_index_bijective();
                assert(stat_index_spec(st) == i as int) by {
                    assert(0 <= i < 24);
                }
            }
            let a = self.vals[i];
            let b = other.vals[i];
            assert(a == self.value(st) && b == other.value(st));
            if a.checked_add(b).is_none() {
                assert(!in_i64_range(self.value(st) + other.value(st)));
                return false;
            }
            i += 1;
        }
        proof {
            lemma_stat_index_bijective();
        }
        true
    }

    /// Whether no value is `i64::MIN`, so that every value can be printed
    /// and negated.
    pub fn all_printable(&self) -> (r: bool)
        ensures
            r == forall|s: Stat| #[trigger] self.value(s) != i64::MIN,
    {
        let mut i: usize = 0;
        while i < 24
            invariant
                i <= 24,
                forall|s: Stat| stat_index_spec(s) < i ==> #[trigger] self.value(s) != i64::MIN,
            decreases 24 - i,
        {
            let ghost st = stat_at(i as int);
            proof {
                lemma_stat_index_bijective();
                assert(stat_index_spec(st) == i as int) by {
                    assert(0 <= i < 24);
                }
            }
            let a = self.vals[i];
            assert(a == self.value(st));
            if a == i64::MIN {
                return false;
            }
            i += 1;
        }
        proof {
            lemma_stat_index_bijective();
        }
        true
    }

    /// Whether every value lies within `±STAT_LIMIT`.
    pub fn is_bounded(&self) -> (r: bool)
        ensures
            r == stat_map_bounded(*self),
    {
        let mut i: usize = 0;
        while i < 24
            invariant
                i <= 24,
                forall|s: Stat| stat_index_spec(s) < i ==> -STAT_LIMIT <= #[trigger] self.value(s) <= STAT_LIMIT,
            decreases 24 - i,
        {
            let ghost st = stat_at(i as int);
            proof {
                lemma_stat_index_bijective();
                assert(stat_index_spec(st) == i as int) by {
                    assert(0 <= i < 24);
                }
            }
            let a = self.vals[i];
            assert(a == self.value(st));
            if a < -STAT_LIMIT || a > STAT_LIMIT {
                return false;
            }
            i += 1;
        }
        proof {
            lemma_stat_index_bijective();
        }
        true
    }

    /// Adds `other`'s value to every stat.
    pub fn add_all(&mut self, other: &StatMap)
        requires
            forall|s: Stat| #![trigger old(self).value(s)] in_i64_range(old(self).value(s) + other.value(s)),
        ensures
            forall|s: Stat| #[trigger] final(self).value(s) == old(self).value(s) + other.value(s),
    {
        let ghost start = *self;
        let mut i: usize = 0;
        while i < 24
            invariant
                i <= 24,
                forall|s: Stat| #![trigger start.value(s)] in_i64_range(start.value(s) + other.value(s)),
                forall|s: Stat| stat_index_spec(s) < i ==> #[trigger] self.value(s) == start.value(s) + other.value(s),
                forall|s: Stat| stat_index_spec(s) >= i ==> #[trigger] self.value(s) == start.value(s),
            decreases 24 - i,
        {
            let ghost st = stat_at(i as int);
            proof {
                lemma_stat_index_bijective();
                assert(stat_index_spec(st) == i as int) by {
                    assert(0 <= i < 24);
                }
                assert(in_i64_range(start.value(st) + other.value(st)));
                assert(self.value(st) == start.value(st));
            }
            let a = self.vals[i];
            let b = other.vals[i];
            assert(a == self.value(st) && b == other.value(st));
            let ghost mid = *self;
            self.vals[i] = a + b;
            proof {
                assert forall|s: Stat| stat_index_spec(s) < i + 1 implies #[trigger] self.value(s) == start.value(s) + other.value(s) by {
                    if stat_index_spec(s) == i as int {
                        assert(s == st);
                    } else {
                        assert(self.value(s) == mid.value(s));
                    }
                }
                assert forall|s: Stat| stat_index_spec(s) >= i + 1 implies #[trigger] self.value(s) == start.value(s) by {
                    assert(self.value(s) == mid.value(s));
                }
            }
            i += 1;
        }
        proof {
            lemma_stat_index_bijective();
        }
    }

    /// Builds a map from `(stat, value)` pairs; a later pair for the same
    /// stat replaces an earlier one.
    pub fn from_pairs(pairs: &[(Stat, i64)]) -> (m: StatMap)
        ensures
            forall|s: Stat| #[trigger] m.value(s) == pairs_value(pairs@, s),
    {
        let mut m = StatMap::new();
        let mut i: usize = 0;
        while i < pairs.len()
            invariant
                i <= pairs@.len(),
                forall|s: Stat| #[trigger] m.value(s) == pairs_value(pairs@.subrange(0, i as int), s),
            decreases pairs@.len() - i,
        {
            let (st, v) = pairs[i];
            m.set(st, v);
            i += 1;
            assert forall|s: Stat| #[trigger] m.value(s) == pairs_value(pairs@.subrange(0, i as int), s) by {
                assert(pairs@.subrange(0, i as int).drop_last() =~= pairs@.subrange(0, i - 1));
            }
        }
        assert(pairs@.subrange(0, pairs@.len() as int) =~= pairs@);
        m
    }
}

/// Whether `x` is an `i64` value.
pub open spec fn in_i64_range(x: int) -> bool {
    i64::MIN <= x <= i64::MAX
}

/// The magnitude bound on stat values that keeps every sum the optimizer forms
/// inside `i64`.
///
/// The optimizer adds one choice per search pool to the innate totals, and
/// a choice (at most two items, for a main and an off hand) contributes at
/// most `2 * STAT_LIMIT = 2^56` to a goal. With at most 64 pools a running
/// total stays within `STAT_LIMIT + 64 * 2^56 = 2^55 + 2^62`, below
/// `i64::MAX = 2^63 - 1`; `2^55` is the largest power of two for which this
/// sum stays below `2^63` with room for the innate stats. Values read from
/// a gear file are held to this bound before an optimization starts.
pub const STAT_LIMIT: i64 = 0x80_0000_0000_0000;

/// Every stat value of `m` lies within `[-STAT_LIMIT, STAT_LIMIT]`.
pub open spec fn stat_map_bounded(m: StatMap) -> bool {
    forall|s: Stat| -STAT_LIMIT <= #[trigger] m.value(s) <= STAT_LIMIT
}

/// The value a list of `(stat, value)` pairs gives `s`: the last pair for
/// `s` wins, and 0 when there is none.
pub open spec fn pairs_value(pairs: Seq<(Stat, i64)>, s: Stat) -> i64
    decreases pairs.len(),
{
    if pairs.len() == 0 {
        0
    } else if pairs.last().0 == s {
        pairs.last().1
    } else {
        pairs_value(pairs.drop_last(), s)
    }
}

impl std::str::FromStr for Stat {
    type Err = String;

    fn from_str(s: &str) -> (r: Result<Stat, String>)
        ensures
            stat_named(normalize_stat_name(s@)) matches Some(st) ==> r == Ok::<Stat, String>(st),
            stat_named(normalize_stat_name(s@)) is None ==> (r matches Err(e) && e@ == unknown_stat_message(s@)),
    {
        parse_stat(s)
    }
}

impl std::str::FromStr for StatGoal {
    type Err = String;

    fn from_str(s: &str) -> (r: Result<StatGoal, String>)
        ensures
            match parse_goal_spec(s@) {
                Ok(g) => r == Ok::<StatGoal, String>(g),
                Err(m) => r matches Err(e) && e@ == m,
            },
    {
        parse_goal(s)
    }
}

} // verus!
