//! Every stat a wiki stat line carries reads back from its own names: its
//! display name and its canonical key, lowercased and stripped of spaces and
//! hyphens, name that stat.
use vstd::prelude::*;

use crate::stat::{display_name_spec, stat_key_spec, Stat};
use crate::stat_names::{ascii_text, ascii_word, is_ascii_letter};
use crate::text::{ascii_lower, ascii_lower_char, unicode_lowercase, without_chars};
use crate::gear::{slot_display_spec, Slot};
use crate::wiki::{wiki_slot_named, wiki_stat_named, wiki_stat_separators};

verus! {

/// The stats a wiki item tooltip lists on its stat lines: all but Armour
/// (given in its own template field) and the avoidance ratings Block, Parry
/// and Evade.
pub open spec fn wiki_lists(s: Stat) -> bool {
    s != Stat::Armor && s != Stat::Block && s != Stat::Parry && s != Stat::Evade
}

proof fn lemma_wiki_separators()
    ensures
        wiki_stat_separators().contains(' '),
        forall|j: int| 0 <= j < wiki_stat_separators().len() ==> !is_ascii_letter(#[trigger] wiki_stat_separators()[j]),
{
    assert(wiki_stat_separators()[0] == ' ');
}

proof fn lemma_wiki_names_of_stats()
    ensures
        wiki_stat_named("might"@) == Some(Stat::Might),
        wiki_stat_named("agility"@) == Some(Stat::Agility),
        wiki_stat_named("vitality"@) == Some(Stat::Vitality),
        wiki_stat_named("will"@) == Some(Stat::Will),
        wiki_stat_named("fate"@) == Some(Stat::Fate),
        wiki_stat_named("morale"@) == Some(Stat::Morale),
        wiki_stat_named("power"@) == Some(Stat::Power),
        wiki_stat_named("devrating"@) == Some(Stat::DevRating),
        wiki_stat_named("offensiveoverpower"@) == Some(Stat::OffensiveOverpower),
        wiki_stat_named("incmitigations"@) == Some(Stat::IncMitigations),
        wiki_stat_named("criticalrating"@) == Some(Stat::CriticalRating),
        wiki_stat_named("finesse"@) == Some(Stat::Finesse),
        wiki_stat_named("physicalmastery"@) == Some(Stat::PhysicalMastery),
        wiki_stat_named("tacticalmastery"@) == Some(Stat::TacticalMastery),
        wiki_stat_named("outgoinghealing"@) == Some(Stat::OutgoingHealing),
        wiki_stat_named("resistance"@) == Some(Stat::Resistance),
        wiki_stat_named("criticaldefense"@) == Some(Stat::CriticalDefense),
        wiki_stat_named("incominghealing"@) == Some(Stat::IncomingHealing),
        wiki_stat_named("physicalmitigation"@) == Some(Stat::PhysicalMitigation),
        wiki_stat_named("tacticalmitigation"@) == Some(Stat::TacticalMitigation),
{
    reveal_strlit("fate");
    reveal_strlit("will");
    reveal_strlit("power");
    reveal_strlit("might");
    reveal_strlit("morale");
    reveal_strlit("finesse");
    reveal_strlit("agility");
    reveal_strlit("vitality");
    reveal_strlit("devrating");
    reveal_strlit("resistance");
    reveal_strlit("critrating");
    reveal_strlit("critdefence");
    reveal_strlit("finesserating");
    reveal_strlit("criticalrating");
    reveal_strlit("incmitigations");
    reveal_strlit("criticaldefense");
    reveal_strlit("incominghealing");
    reveal_strlit("outgoinghealing");
    reveal_strlit("incomitigations");
    reveal_strlit("physicalmastery");
    reveal_strlit("tacticalmastery");
    reveal_strlit("physicalmitigation");
    reveal_strlit("tacticalmitigation");
    reveal_strlit("offensiveoverpower");
    reveal_strlit("incomingmitigations");
    reveal_strlit("criticaldefencerating");
    reveal_strlit("devastatingcriticalrating");
    assert("fate"@.len() == 4);
    assert("will"@.len() == 4);
    assert("power"@.len() == 5);
    assert("might"@.len() == 5);
    assert("morale"@.len() == 6);
    assert("finesse"@.len() == 7);
    assert("agility"@.len() == 7);
    assert("vitality"@.len() == 8);
    assert("devrating"@.len() == 9);
    assert("resistance"@.len() == 10);
    assert("critrating"@.len() == 10);
    assert("critdefence"@.len() == 11);
    assert("finesserating"@.len() == 13);
    assert("criticalrating"@.len() == 14);
    assert("incmitigations"@.len() == 14);
    assert("criticaldefense"@.len() == 15);
    assert("incominghealing"@.len() == 15);
    assert("outgoinghealing"@.len() == 15);
    assert("incomitigations"@.len() == 15);
    assert("physicalmastery"@.len() == 15);
    assert("tacticalmastery"@.len() == 15);
    assert("physicalmitigation"@.len() == 18);
    assert("tacticalmitigation"@.len() == 18);
    assert("offensiveoverpower"@.len() == 18);
    assert("incomingmitigations"@.len() == 19);
    assert("criticaldefencerating"@.len() == 21);
    assert("devastatingcriticalrating"@.len() == 25);
    assert("criticaldefense"@[0] != "physicalmastery"@[0]);
    assert("criticaldefense"@[0] != "tacticalmastery"@[0]);
    assert("fate"@[0] != "will"@[0]);
    assert("finesse"@[0] != "agility"@[0]);
    assert("incmitigations"@[0] != "criticalrating"@[0]);
    assert("incominghealing"@[0] != "criticaldefense"@[0]);
    assert("incominghealing"@[0] != "physicalmastery"@[0]);
    assert("incominghealing"@[0] != "tacticalmastery"@[0]);
    assert("outgoinghealing"@[0] != "criticaldefense"@[0]);
    assert("outgoinghealing"@[0] != "incominghealing"@[0]);
    assert("outgoinghealing"@[0] != "physicalmastery"@[0]);
    assert("outgoinghealing"@[0] != "tacticalmastery"@[0]);
    assert("physicalmastery"@[0] != "tacticalmastery"@[0]);
    assert("physicalmitigation"@[0] != "offensiveoverpower"@[0]);
    assert("physicalmitigation"@[0] != "tacticalmitigation"@[0]);
    assert("power"@[0] != "might"@[0]);
    assert("resistance"@[0] != "critrating"@[0]);
    assert("tacticalmitigation"@[0] != "offensiveoverpower"@[0]);
}

/// Every stat the wiki lists is named on a stat line by its canonical key
/// and by its display name (but `Inc. Mitigations`, whose full stop is
/// kept), once lowercased and stripped of spaces and hyphens:
/// `"Tactical Mastery"` reads as Tactical Mastery, `"Critical Rating"` as
/// Critical Rating.
pub proof fn lemma_wiki_stat_names_name_their_stats(s: Stat)
    requires
        wiki_lists(s),
    ensures
        ascii_text(stat_key_spec(s)),
        wiki_stat_named(without_chars(ascii_lower(stat_key_spec(s)), wiki_stat_separators())) == Some(s),
        s != Stat::IncMitigations ==> ascii_text(display_name_spec(s)),
        s != Stat::IncMitigations ==> wiki_stat_named(
            without_chars(ascii_lower(display_name_spec(s)), wiki_stat_separators()),
        ) == Some(s),
        s != Stat::IncMitigations && unicode_lowercase(display_name_spec(s)) == ascii_lower(display_name_spec(s))
            ==> wiki_stat_named(without_chars(unicode_lowercase(display_name_spec(s)), wiki_stat_separators()))
            == Some(s),
{
    lemma_wiki_separators();
    lemma_wiki_names_of_stats();
    match s {
        Stat::Might => {
            reveal_strlit("Might");
            reveal_strlit("might");
            assert(ascii_word("Might"@));
            crate::stat_names::lemma_word_kept("Might"@, wiki_stat_separators());
            assert(ascii_lower("Might"@) =~= "might"@);
        },
        Stat::Agility => {
            reveal_strlit("Agility");
            reveal_strlit("agility");
            assert(ascii_word("Agility"@));
            crate::stat_names::lemma_word_kept("Agility"@, wiki_stat_separators());
            assert(ascii_lower("Agility"@) =~= "agility"@);
        },
        Stat::Vitality => {
            reveal_strlit("Vitality");
            reveal_strlit("vitality");
            assert(ascii_word("Vitality"@));
            crate::stat_names::lemma_word_kept("Vitality"@, wiki_stat_separators());
            assert(ascii_lower("Vitality"@) =~= "vitality"@);
        },
        Stat::Will => {
            reveal_strlit("Will");
            reveal_strlit("will");
            assert(ascii_word("Will"@));
            crate::stat_names::lemma_word_kept("Will"@, wiki_stat_separators());
            assert(ascii_lower("Will"@) =~= "will"@);
        },
        Stat::Fate => {
            reveal_strlit("Fate");
            reveal_strlit("fate");
            assert(ascii_word("Fate"@));
            crate::stat_names::lemma_word_kept("Fate"@, wiki_stat_separators());
            assert(ascii_lower("Fate"@) =~= "fate"@);
        },
        Stat::Morale => {
            reveal_strlit("Morale");
            reveal_strlit("morale");
            assert(ascii_word("Morale"@));
            crate::stat_names::lemma_word_kept("Morale"@, wiki_stat_separators());
            assert(ascii_lower("Morale"@) =~= "morale"@);
        },
        Stat::Power => {
            reveal_strlit("Power");
            reveal_strlit("power");
            assert(ascii_word("Power"@));
            crate::stat_names::lemma_word_kept("Power"@, wiki_stat_separators());
            assert(ascii_lower("Power"@) =~= "power"@);
        },
        Stat::DevRating => {
            reveal_strlit("DevRating");
            reveal_strlit("devrating");
            assert(ascii_word("DevRating"@));
            crate::stat_names::lemma_word_kept("DevRating"@, wiki_stat_separators());
            assert(ascii_lower("DevRating"@) =~= "devrating"@);
        },
        Stat::OffensiveOverpower => {
            reveal_strlit("OffensiveOverpower");
            reveal_strlit("offensiveoverpower");
            assert(ascii_word("OffensiveOverpower"@));
            crate::stat_names::lemma_word_kept("OffensiveOverpower"@, wiki_stat_separators());
            assert(ascii_lower("OffensiveOverpower"@) =~= "offensiveoverpower"@);
        },
        Stat::IncMitigations => {
            reveal_strlit("IncMitigations");
            reveal_strlit("incmitigations");
            assert(ascii_word("IncMitigations"@));
            crate::stat_names::lemma_word_kept("IncMitigations"@, wiki_stat_separators());
            assert(ascii_lower("IncMitigations"@) =~= "incmitigations"@);
        },
        Stat::CriticalRating => {
            reveal_strlit("CriticalRating");
            reveal_strlit("criticalrating");
            assert(ascii_word("CriticalRating"@));
            crate::stat_names::lemma_word_kept("CriticalRating"@, wiki_stat_separators());
            assert(ascii_lower("CriticalRating"@) =~= "criticalrating"@);
        },
        Stat::Finesse => {
            reveal_strlit("Finesse");
            reveal_strlit("finesse");
            assert(ascii_word("Finesse"@));
            crate::stat_names::lemma_word_kept("Finesse"@, wiki_stat_separators());
            assert(ascii_lower("Finesse"@) =~= "finesse"@);
        },
        Stat::PhysicalMastery => {
            reveal_strlit("PhysicalMastery");
            reveal_strlit("physicalmastery");
            assert(ascii_word("PhysicalMastery"@));
            crate::stat_names::lemma_word_kept("PhysicalMastery"@, wiki_stat_separators());
            assert(ascii_lower("PhysicalMastery"@) =~= "physicalmastery"@);
        },
        Stat::TacticalMastery => {
            reveal_strlit("TacticalMastery");
            reveal_strlit("tacticalmastery");
            assert(ascii_word("TacticalMastery"@));
            crate::stat_names::lemma_word_kept("TacticalMastery"@, wiki_stat_separators());
            assert(ascii_lower("TacticalMastery"@) =~= "tacticalmastery"@);
        },
        Stat::OutgoingHealing => {
            reveal_strlit("OutgoingHealing");
            reveal_strlit("outgoinghealing");
            assert(ascii_word("OutgoingHealing"@));
            crate::stat_names::lemma_word_kept("OutgoingHealing"@, wiki_stat_separators());
            assert(ascii_lower("OutgoingHealing"@) =~= "outgoinghealing"@);
        },
        Stat::Resistance => {
            reveal_strlit("Resistance");
            reveal_strlit("resistance");
            assert(ascii_word("Resistance"@));
            crate::stat_names::lemma_word_kept("Resistance"@, wiki_stat_separators());
            assert(ascii_lower("Resistance"@) =~= "resistance"@);
        },
        Stat::CriticalDefense => {
            reveal_strlit("CriticalDefense");
            reveal_strlit("criticaldefense");
            assert(ascii_word("CriticalDefense"@));
            crate::stat_names::lemma_word_kept("CriticalDefense"@, wiki_stat_separators());
            assert(ascii_lower("CriticalDefense"@) =~= "criticaldefense"@);
        },
        Stat::IncomingHealing => {
            reveal_strlit("IncomingHealing");
            reveal_strlit("incominghealing");
            assert(ascii_word("IncomingHealing"@));
            crate::stat_names::lemma_word_kept("IncomingHealing"@, wiki_stat_separators());
            assert(ascii_lower("IncomingHealing"@) =~= "incominghealing"@);
        },
        Stat::PhysicalMitigation => {
            reveal_strlit("PhysicalMitigation");
            reveal_strlit("physicalmitigation");
            assert(ascii_word("PhysicalMitigation"@));
            crate::stat_names::lemma_word_kept("PhysicalMitigation"@, wiki_stat_separators());
            assert(ascii_lower("PhysicalMitigation"@) =~= "physicalmitigation"@);
        },
        Stat::TacticalMitigation => {
            reveal_strlit("TacticalMitigation");
            reveal_strlit("tacticalmitigation");
            assert(ascii_word("TacticalMitigation"@));
            crate::stat_names::lemma_word_kept("TacticalMitigation"@, wiki_stat_separators());
            assert(ascii_lower("TacticalMitigation"@) =~= "tacticalmitigation"@);
        },
        _ => {},
    }
    match s {
        Stat::Might => {
            reveal_strlit("Might");
            reveal_strlit("might");
            assert(ascii_word("Might"@));
            crate::stat_names::lemma_word_kept("Might"@, wiki_stat_separators());
            assert(ascii_lower("Might"@) =~= "might"@);
        },
        Stat::Agility => {
            reveal_strlit("Agility");
            reveal_strlit("agility");
            assert(ascii_word("Agility"@));
            crate::stat_names::lemma_word_kept("Agility"@, wiki_stat_separators());
            assert(ascii_lower("Agility"@) =~= "agility"@);
        },
        Stat::Vitality => {
            reveal_strlit("Vitality");
            reveal_strlit("vitality");
            assert(ascii_word("Vitality"@));
            crate::stat_names::lemma_word_kept("Vitality"@, wiki_stat_separators());
            assert(ascii_lower("Vitality"@) =~= "vitality"@);
        },
        Stat::Will => {
            reveal_strlit("Will");
            reveal_strlit("will");
            assert(ascii_word("Will"@));
            crate::stat_names::lemma_word_kept("Will"@, wiki_stat_separators());
            assert(ascii_lower("Will"@) =~= "will"@);
        },
        Stat::Fate => {
            reveal_strlit("Fate");
            reveal_strlit("fate");
            assert(ascii_word("Fate"@));
            crate::stat_names::lemma_word_kept("Fate"@, wiki_stat_separators());
            assert(ascii_lower("Fate"@) =~= "fate"@);
        },
        Stat::Morale => {
            reveal_strlit("Morale");
            reveal_strlit("morale");
            assert(ascii_word("Morale"@));
            crate::stat_names::lemma_word_kept("Morale"@, wiki_stat_separators());
            assert(ascii_lower("Morale"@) =~= "morale"@);
        },
        Stat::Power => {
            reveal_strlit("Power");
            reveal_strlit("power");
            assert(ascii_word("Power"@));
            crate::stat_names::lemma_word_kept("Power"@, wiki_stat_separators());
            assert(ascii_lower("Power"@) =~= "power"@);
        },
        Stat::DevRating => {
            reveal_strlit("Dev Rating");
            reveal_strlit("Dev");
            reveal_strlit("Rating");
            reveal_strlit("devrating");
            assert("Dev Rating"@ =~= "Dev"@ + seq![' '] + "Rating"@);
            assert(ascii_word("Dev"@));
            assert(ascii_word("Rating"@));
            crate::stat_names::lemma_two_words_joined("Dev"@, "Rating"@, wiki_stat_separators());
            assert(ascii_lower("Dev"@) + ascii_lower("Rating"@) =~= "devrating"@);
        },
        Stat::OffensiveOverpower => {
            reveal_strlit("Offensive Overpower");
            reveal_strlit("Offensive");
            reveal_strlit("Overpower");
            reveal_strlit("offensiveoverpower");
            assert("Offensive Overpower"@ =~= "Offensive"@ + seq![' '] + "Overpower"@);
            assert(ascii_word("Offensive"@));
            assert(ascii_word("Overpower"@));
            crate::stat_names::lemma_two_words_joined("Offensive"@, "Overpower"@, wiki_stat_separators());
            assert(ascii_lower("Offensive"@) + ascii_lower("Overpower"@) =~= "offensiveoverpower"@);
        },
        Stat::CriticalRating => {
            reveal_strlit("Critical Rating");
            reveal_strlit("Critical");
            reveal_strlit("Rating");
            reveal_strlit("criticalrating");
            assert("Critical Rating"@ =~= "Critical"@ + seq![' '] + "Rating"@);
            assert(ascii_word("Critical"@));
            assert(ascii_word("Rating"@));
            crate::stat_names::lemma_two_words_joined("Critical"@, "Rating"@, wiki_stat_separators());
            assert(ascii_lower("Critical"@) + ascii_lower("Rating"@) =~= "criticalrating"@);
        },
        Stat::Finesse => {
            reveal_strlit("Finesse");
            reveal_strlit("finesse");
            assert(ascii_word("Finesse"@));
            crate::stat_names::lemma_word_kept("Finesse"@, wiki_stat_separators());
            assert(ascii_lower("Finesse"@) =~= "finesse"@);
        },
        Stat::PhysicalMastery => {
            reveal_strlit("Physical Mastery");
            reveal_strlit("Physical");
            reveal_strlit("Mastery");
            reveal_strlit("physicalmastery");
            assert("Physical Mastery"@ =~= "Physical"@ + seq![' '] + "Mastery"@);
            assert(ascii_word("Physical"@));
            assert(ascii_word("Mastery"@));
            crate::stat_names::lemma_two_words_joined("Physical"@, "Mastery"@, wiki_stat_separators());
            assert(ascii_lower("Physical"@) + ascii_lower("Mastery"@) =~= "physicalmastery"@);
        },
        Stat::TacticalMastery => {
            reveal_strlit("Tactical Mastery");
            reveal_strlit("Tactical");
            reveal_strlit("Mastery");
            reveal_strlit("tacticalmastery");
            assert("Tactical Mastery"@ =~= "Tactical"@ + seq![' '] + "Mastery"@);
            assert(ascii_word("Tactical"@));
            assert(ascii_word("Mastery"@));
            crate::stat_names::lemma_two_words_joined("Tactical"@, "Mastery"@, wiki_stat_separators());
            assert(ascii_lower("Tactical"@) + ascii_lower("Mastery"@) =~= "tacticalmastery"@);
        },
        Stat::OutgoingHealing => {
            reveal_strlit("Outgoing Healing");
            reveal_strlit("Outgoing");
            reveal_strlit("Healing");
            reveal_strlit("outgoinghealing");
            assert("Outgoing Healing"@ =~= "Outgoing"@ + seq![' '] + "Healing"@);
            assert(ascii_word("Outgoing"@));
            assert(ascii_word("Healing"@));
            crate::stat_names::lemma_two_words_joined("Outgoing"@, "Healing"@, wiki_stat_separators());
            assert(ascii_lower("Outgoing"@) + ascii_lower("Healing"@) =~= "outgoinghealing"@);
        },
        Stat::Resistance => {
            reveal_strlit("Resistance");
            reveal_strlit("resistance");
            assert(ascii_word("Resistance"@));
            crate::stat_names::lemma_word_kept("Resistance"@, wiki_stat_separators());
            assert(ascii_lower("Resistance"@) =~= "resistance"@);
        },
        Stat::CriticalDefense => {
            reveal_strlit("Critical Defense");
            reveal_strlit("Critical");
            reveal_strlit("Defense");
            reveal_strlit("criticaldefense");
            assert("Critical Defense"@ =~= "Critical"@ + seq![' '] + "Defense"@);
            assert(ascii_word("Critical"@));
            assert(ascii_word("Defense"@));
            crate::stat_names::lemma_two_words_joined("Critical"@, "Defense"@, wiki_stat_separators());
            assert(ascii_lower("Critical"@) + ascii_lower("Defense"@) =~= "criticaldefense"@);
        },
        Stat::IncomingHealing => {
            reveal_strlit("Incoming Healing");
            reveal_strlit("Incoming");
            reveal_strlit("Healing");
            reveal_strlit("incominghealing");
            assert("Incoming Healing"@ =~= "Incoming"@ + seq![' '] + "Healing"@);
            assert(ascii_word("Incoming"@));
            assert(ascii_word("Healing"@));
            crate::stat_names::lemma_two_words_joined("Incoming"@, "Healing"@, wiki_stat_separators());
            assert(ascii_lower("Incoming"@) + ascii_lower("Healing"@) =~= "incominghealing"@);
        },
        Stat::PhysicalMitigation => {
            reveal_strlit("Physical Mitigation");
            reveal_strlit("Physical");
            reveal_strlit("Mitigation");
            reveal_strlit("physicalmitigation");
            assert("Physical Mitigation"@ =~= "Physical"@ + seq![' '] + "Mitigation"@);
            assert(ascii_word("Physical"@));
            assert(ascii_word("Mitigation"@));
            crate::stat_names::lemma_two_words_joined("Physical"@, "Mitigation"@, wiki_stat_separators());
            assert(ascii_lower("Physical"@) + ascii_lower("Mitigation"@) =~= "physicalmitigation"@);
        },
        Stat::TacticalMitigation => {
            reveal_strlit("Tactical Mitigation");
            reveal_strlit("Tactical");
            reveal_strlit("Mitigation");
            reveal_strlit("tacticalmitigation");
            assert("Tactical Mitigation"@ =~= "Tactical"@ + seq![' '] + "Mitigation"@);
            assert(ascii_word("Tactical"@));
            assert(ascii_word("Mitigation"@));
            crate::stat_names::lemma_two_words_joined("Tactical"@, "Mitigation"@, wiki_stat_separators());
            assert(ascii_lower("Tactical"@) + ascii_lower("Mitigation"@) =~= "tacticalmitigation"@);
        },
        _ => {},
    }
}

proof fn lemma_wiki_slot_names_of_slots()
    ensures
        wiki_slot_named("head"@) == Some(Slot::Head),
        wiki_slot_named("chest"@) == Some(Slot::Chest),
        wiki_slot_named("legs"@) == Some(Slot::Legs),
        wiki_slot_named("hands"@) == Some(Slot::Hands),
        wiki_slot_named("feet"@) == Some(Slot::Feet),
        wiki_slot_named("shoulders"@) == Some(Slot::Shoulders),
        wiki_slot_named("back"@) == Some(Slot::Back),
        wiki_slot_named("wrist"@) == Some(Slot::Wrist1),
        wiki_slot_named("neck"@) == Some(Slot::Neck),
        wiki_slot_named("finger"@) == Some(Slot::Finger1),
        wiki_slot_named("ear"@) == Some(Slot::Ear1),
        wiki_slot_named("pocket"@) == Some(Slot::Pocket),
        wiki_slot_named("off-hand"@) == Some(Slot::OffHand),
        wiki_slot_named("ranged"@) == Some(Slot::Ranged),
{
    reveal_strlit("ear");
    reveal_strlit("head");
    reveal_strlit("ring");
    reveal_strlit("back");
    reveal_strlit("neck");
    reveal_strlit("legs");
    reveal_strlit("feet");
    reveal_strlit("cloak");
    reveal_strlit("hands");
    reveal_strlit("boots");
    reveal_strlit("chest");
    reveal_strlit("wrist");
    reveal_strlit("wrist1");
    reveal_strlit("ranged");
    reveal_strlit("finger");
    reveal_strlit("gloves");
    reveal_strlit("pocket");
    reveal_strlit("offhand");
    reveal_strlit("earring");
    reveal_strlit("off-hand");
    reveal_strlit("necklace");
    reveal_strlit("bracelet");
    reveal_strlit("shoulders");
    assert("ear"@.len() == 3);
    assert("head"@.len() == 4);
    assert("ring"@.len() == 4);
    assert("back"@.len() == 4);
    assert("neck"@.len() == 4);
    assert("legs"@.len() == 4);
    assert("feet"@.len() == 4);
    assert("cloak"@.len() == 5);
    assert("hands"@.len() == 5);
    assert("boots"@.len() == 5);
    assert("chest"@.len() == 5);
    assert("wrist"@.len() == 5);
    assert("wrist1"@.len() == 6);
    assert("ranged"@.len() == 6);
    assert("finger"@.len() == 6);
    assert("gloves"@.len() == 6);
    assert("pocket"@.len() == 6);
    assert("offhand"@.len() == 7);
    assert("earring"@.len() == 7);
    assert("off-hand"@.len() == 8);
    assert("necklace"@.len() == 8);
    assert("bracelet"@.len() == 8);
    assert("shoulders"@.len() == 9);
    assert("back"@[0] != "feet"@[0]);
    assert("back"@[0] != "head"@[0]);
    assert("back"@[0] != "legs"@[0]);
    assert("feet"@[0] != "head"@[0]);
    assert("feet"@[0] != "legs"@[0]);
    assert("finger"@[0] != "gloves"@[0]);
    assert("finger"@[0] != "wrist1"@[0]);
    assert("hands"@[0] != "chest"@[0]);
    assert("legs"@[0] != "head"@[0]);
    assert("neck"@[0] != "back"@[0]);
    assert("neck"@[0] != "feet"@[0]);
    assert("neck"@[0] != "head"@[0]);
    assert("neck"@[0] != "legs"@[0]);
    assert("off-hand"@[0] != "bracelet"@[0]);
    assert("off-hand"@[0] != "necklace"@[0]);
    assert("pocket"@[0] != "finger"@[0]);
    assert("pocket"@[0] != "gloves"@[0]);
    assert("pocket"@[0] != "wrist1"@[0]);
    assert("ranged"@[0] != "finger"@[0]);
    assert("ranged"@[0] != "gloves"@[0]);
    assert("ranged"@[0] != "pocket"@[0]);
    assert("ranged"@[0] != "wrist1"@[0]);
    assert("wrist"@[0] != "boots"@[0]);
    assert("wrist"@[0] != "chest"@[0]);
    assert("wrist"@[0] != "cloak"@[0]);
    assert("wrist"@[0] != "hands"@[0]);
}

/// The slots a wiki item tooltip names: every slot but the main hand, the
/// class item and the second members of the paired families.
pub open spec fn wiki_names_slot(s: Slot) -> bool {
    s != Slot::MainHand && s != Slot::ClassItem && s != Slot::Wrist2 && s != Slot::Finger2 && s != Slot::Ear2
}

/// A wiki slot that is a slot's display name, in any case, reads as that
/// slot: `"Shoulders"` as Shoulders, `"Back"` as Back, `"Ranged"` as Ranged.
pub proof fn lemma_wiki_slot_names_name_their_slots(s: Slot)
    requires
        wiki_names_slot(s),
    ensures
        wiki_slot_named(ascii_lower(slot_display_spec(s))) == Some(s),
{
    lemma_wiki_slot_names_of_slots();
    match s {
        Slot::Head => {
            reveal_strlit("Head");
            reveal_strlit("head");
            assert(ascii_lower("Head"@) =~= "head"@);
        },
        Slot::Chest => {
            reveal_strlit("Chest");
            reveal_strlit("chest");
            assert(ascii_lower("Chest"@) =~= "chest"@);
        },
        Slot::Legs => {
            reveal_strlit("Legs");
            reveal_strlit("legs");
            assert(ascii_lower("Legs"@) =~= "legs"@);
        },
        Slot::Hands => {
            reveal_strlit("Hands");
            reveal_strlit("hands");
            assert(ascii_lower("Hands"@) =~= "hands"@);
        },
        Slot::Feet => {
            reveal_strlit("Feet");
            reveal_strlit("feet");
            assert(ascii_lower("Feet"@) =~= "feet"@);
        },
        Slot::Shoulders => {
            reveal_strlit("Shoulders");
            reveal_strlit("shoulders");
            assert(ascii_lower("Shoulders"@) =~= "shoulders"@);
        },
        Slot::Back => {
            reveal_strlit("Back");
            reveal_strlit("back");
            assert(ascii_lower("Back"@) =~= "back"@);
        },
        Slot::Wrist1 => {
            reveal_strlit("Wrist");
            reveal_strlit("wrist");
            assert(ascii_lower("Wrist"@) =~= "wrist"@);
        },
        Slot::Neck => {
            reveal_strlit("Neck");
            reveal_strlit("neck");
            assert(ascii_lower("Neck"@) =~= "neck"@);
        },
        Slot::Finger1 => {
            reveal_strlit("Finger");
            reveal_strlit("finger");
            assert(ascii_lower("Finger"@) =~= "finger"@);
        },
        Slot::Ear1 => {
            reveal_strlit("Ear");
            reveal_strlit("ear");
            assert(ascii_lower("Ear"@) =~= "ear"@);
        },
        Slot::Pocket => {
            reveal_strlit("Pocket");
            reveal_strlit("pocket");
            assert(ascii_lower("Pocket"@) =~= "pocket"@);
        },
        Slot::OffHand => {
            reveal_strlit("Off-hand");
            reveal_strlit("off-hand");
            assert(ascii_lower("Off-hand"@) =~= "off-hand"@);
        },
        Slot::Ranged => {
            reveal_strlit("Ranged");
            reveal_strlit("ranged");
            assert(ascii_lower("Ranged"@) =~= "ranged"@);
        },
        _ => {},
    }
}

/// Every name a wiki stat line may use is a spelling of the stat it names:
/// it begins with the same three letters as that stat's canonical key
/// (`critdefence` and `criticaldefencerating` with `Cri` of
/// `CriticalDefense`, `incomingmitigations` with `Inc` of
/// `IncMitigations`), and the stat is one the wiki lists.
pub proof fn lemma_wiki_spellings_belong_to_their_stats(n: Seq<char>)
    ensures
        wiki_stat_named(n) is Some ==> n.len() >= 3 && wiki_lists(wiki_stat_named(n)->0) && forall|i: int|
            0 <= i < 3 ==> #[trigger] n[i] == ascii_lower_char(stat_key_spec(wiki_stat_named(n)->0)[i]),
{
    reveal_strlit("Fate");
    reveal_strlit("fate");
    reveal_strlit("Will");
    reveal_strlit("will");
    reveal_strlit("Evade");
    reveal_strlit("Block");
    reveal_strlit("Power");
    reveal_strlit("power");
    reveal_strlit("Armor");
    reveal_strlit("Might");
    reveal_strlit("might");
    reveal_strlit("Parry");
    reveal_strlit("Morale");
    reveal_strlit("morale");
    reveal_strlit("Finesse");
    reveal_strlit("finesse");
    reveal_strlit("Agility");
    reveal_strlit("agility");
    reveal_strlit("Vitality");
    reveal_strlit("vitality");
    reveal_strlit("DevRating");
    reveal_strlit("devrating");
    reveal_strlit("Resistance");
    reveal_strlit("resistance");
    reveal_strlit("critrating");
    reveal_strlit("critdefence");
    reveal_strlit("finesserating");
    reveal_strlit("CriticalRating");
    reveal_strlit("criticalrating");
    reveal_strlit("IncMitigations");
    reveal_strlit("incmitigations");
    reveal_strlit("CriticalDefense");
    reveal_strlit("criticaldefense");
    reveal_strlit("IncomingHealing");
    reveal_strlit("OutgoingHealing");
    reveal_strlit("incominghealing");
    reveal_strlit("outgoinghealing");
    reveal_strlit("incomitigations");
    reveal_strlit("PhysicalMastery");
    reveal_strlit("TacticalMastery");
    reveal_strlit("physicalmastery");
    reveal_strlit("tacticalmastery");
    reveal_strlit("PhysicalMitigation");
    reveal_strlit("TacticalMitigation");
    reveal_strlit("physicalmitigation");
    reveal_strlit("tacticalmitigation");
    reveal_strlit("OffensiveOverpower");
    reveal_strlit("offensiveoverpower");
    reveal_strlit("incomingmitigations");
    reveal_strlit("criticaldefencerating");
    reveal_strlit("devastatingcriticalrating");
}

} // verus!
