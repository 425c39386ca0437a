//! Every stat's own names read back as that stat: the canonical key and the
//! display name, lowercased and stripped of separators, name the stat they
//! belong to. This is what lets `lgo optimize OutgoingHealing:200000` and
//! `"Outgoing Healing"` mean Outgoing Healing.
use vstd::prelude::*;

use crate::stat::{abbreviation_spec, display_name_spec, normalize_stat_name, stat_key_spec, stat_name_separators, stat_named, Stat};
use crate::text::{ascii_lower, ascii_lower_char, unicode_lowercase, without_chars};

verus! {

/// An ASCII letter.
pub open spec fn is_ascii_letter(c: char) -> bool {
    ('A' <= c && c <= 'Z') || ('a' <= c && c <= 'z')
}

/// A word of ASCII letters.
pub open spec fn ascii_word(w: Seq<char>) -> bool {
    forall|i: int| 0 <= i < w.len() ==> is_ascii_letter(#[trigger] w[i])
}

/// A text of ASCII characters.
pub open spec fn ascii_text(w: Seq<char>) -> bool {
    forall|i: int| 0 <= i < w.len() ==> (#[trigger] w[i] as int) < 128
}

proof fn lemma_lower_letter(c: char)
    requires
        is_ascii_letter(c),
    ensures
        is_ascii_letter(ascii_lower_char(c)),
{
}

/// Dropping characters that are not letters keeps a lowercased word whole.
pub proof fn lemma_word_kept(w: Seq<char>, drop: Seq<char>)
    requires
        ascii_word(w),
        forall|j: int| 0 <= j < drop.len() ==> !is_ascii_letter(#[trigger] drop[j]),
    ensures
        without_chars(ascii_lower(w), drop) == ascii_lower(w),
    decreases w.len(),
{
    let keep = |c: char| !drop.contains(c);
    if w.len() == 0 {
        assert(ascii_lower(w) =~= Seq::<char>::empty());
        reveal(Seq::filter);
        assert(ascii_lower(w).filter(keep) =~= ascii_lower(w));
    } else {
        let v = w.drop_last();
        lemma_word_kept(v, drop);
        let c = ascii_lower_char(w.last());
        lemma_lower_letter(w.last());
        assert(ascii_lower(w) =~= ascii_lower(v).push(c));
        ascii_lower(v).lemma_filter_push(c, keep);
        assert(!drop.contains(c));
    }
}

/// Lowercasing two words around a space and dropping the space joins them.
pub proof fn lemma_two_words_joined(a: Seq<char>, b: Seq<char>, drop: Seq<char>)
    requires
        ascii_word(a),
        ascii_word(b),
        drop.contains(' '),
        forall|j: int| 0 <= j < drop.len() ==> !is_ascii_letter(#[trigger] drop[j]),
    ensures
        without_chars(ascii_lower(a + seq![' '] + b), drop) == ascii_lower(a) + ascii_lower(b),
{
    let keep = |c: char| !drop.contains(c);
    lemma_word_kept(a, drop);
    lemma_word_kept(b, drop);
    let sp: Seq<char> = seq![' '];
    assert(ascii_lower(a + sp + b) =~= ascii_lower(a) + ascii_lower(sp) + ascii_lower(b));
    assert(ascii_lower(sp) =~= seq![' ']);
    Seq::filter_distributes_over_add(ascii_lower(a) + ascii_lower(sp), ascii_lower(b), keep);
    Seq::filter_distributes_over_add(ascii_lower(a), ascii_lower(sp), keep);
    assert(Seq::<char>::empty().push(' ') =~= ascii_lower(sp));
    Seq::<char>::empty().lemma_filter_push(' ', keep);
    reveal(Seq::filter);
    assert(Seq::<char>::empty().filter(keep) =~= Seq::<char>::empty());
    assert(ascii_lower(sp).filter(keep) =~= Seq::<char>::empty());
}

proof fn lemma_separators()
    ensures
        stat_name_separators().contains(' '),
        forall|j: int| 0 <= j < stat_name_separators().len() ==> !is_ascii_letter(#[trigger] stat_name_separators()[j]),
{
    assert(stat_name_separators()[0] == ' ');
}

proof fn lemma_names_of_stats()
    ensures
        stat_named("might"@) == Some(Stat::Might),
        stat_named("agility"@) == Some(Stat::Agility),
        stat_named("vitality"@) == Some(Stat::Vitality),
        stat_named("will"@) == Some(Stat::Will),
        stat_named("fate"@) == Some(Stat::Fate),
        stat_named("morale"@) == Some(Stat::Morale),
        stat_named("power"@) == Some(Stat::Power),
        stat_named("devrating"@) == Some(Stat::DevRating),
        stat_named("offensiveoverpower"@) == Some(Stat::OffensiveOverpower),
        stat_named("incmitigations"@) == Some(Stat::IncMitigations),
        stat_named("armor"@) == Some(Stat::Armor),
        stat_named("armour"@) == Some(Stat::Armor),
        stat_named("criticalrating"@) == Some(Stat::CriticalRating),
        stat_named("finesse"@) == Some(Stat::Finesse),
        stat_named("physicalmastery"@) == Some(Stat::PhysicalMastery),
        stat_named("tacticalmastery"@) == Some(Stat::TacticalMastery),
        stat_named("outgoinghealing"@) == Some(Stat::OutgoingHealing),
        stat_named("resistance"@) == Some(Stat::Resistance),
        stat_named("criticaldefense"@) == Some(Stat::CriticalDefense),
        stat_named("incominghealing"@) == Some(Stat::IncomingHealing),
        stat_named("block"@) == Some(Stat::Block),
        stat_named("parry"@) == Some(Stat::Parry),
        stat_named("evade"@) == Some(Stat::Evade),
        stat_named("physicalmitigation"@) == Some(Stat::PhysicalMitigation),
        stat_named("tacticalmitigation"@) == Some(Stat::TacticalMitigation),
{
    reveal_strlit("pa");
    reveal_strlit("cd");
    reveal_strlit("ih");
    reveal_strlit("oh");
    reveal_strlit("bl");
    reveal_strlit("ml");
    reveal_strlit("am");
    reveal_strlit("pm");
    reveal_strlit("tm");
    reveal_strlit("fn");
    reveal_strlit("cr");
    reveal_strlit("rs");
    reveal_strlit("pt");
    reveal_strlit("tt");
    reveal_strlit("ev");
    reveal_strlit("pw");
    reveal_strlit("fate");
    reveal_strlit("will");
    reveal_strlit("evade");
    reveal_strlit("block");
    reveal_strlit("power");
    reveal_strlit("armor");
    reveal_strlit("might");
    reveal_strlit("parry");
    reveal_strlit("morale");
    reveal_strlit("armour");
    reveal_strlit("incmit");
    reveal_strlit("finesse");
    reveal_strlit("incheal");
    reveal_strlit("outheal");
    reveal_strlit("physmit");
    reveal_strlit("tactmit");
    reveal_strlit("agility");
    reveal_strlit("physmast");
    reveal_strlit("tactmast");
    reveal_strlit("vitality");
    reveal_strlit("devrating");
    reveal_strlit("overpower");
    reveal_strlit("resistance");
    reveal_strlit("critrating");
    reveal_strlit("critdefence");
    reveal_strlit("critdefense");
    reveal_strlit("physmastery");
    reveal_strlit("tactmastery");
    reveal_strlit("finesserating");
    reveal_strlit("criticalrating");
    reveal_strlit("physmitigation");
    reveal_strlit("tactmitigation");
    reveal_strlit("incmitigations");
    reveal_strlit("criticaldefence");
    reveal_strlit("criticaldefense");
    reveal_strlit("incominghealing");
    reveal_strlit("outgoinghealing");
    reveal_strlit("physicalmastery");
    reveal_strlit("tacticalmastery");
    reveal_strlit("physicalmitigation");
    reveal_strlit("tacticalmitigation");
    reveal_strlit("offensiveoverpower");
    reveal_strlit("devastatingcriticalrating");
    assert("pa"@.len() == 2);
    assert("cd"@.len() == 2);
    assert("ih"@.len() == 2);
    assert("oh"@.len() == 2);
    assert("bl"@.len() == 2);
    assert("ml"@.len() == 2);
    assert("am"@.len() == 2);
    assert("pm"@.len() == 2);
    assert("tm"@.len() == 2);
    assert("fn"@.len() == 2);
    assert("cr"@.len() == 2);
    assert("rs"@.len() == 2);
    assert("pt"@.len() == 2);
    assert("tt"@.len() == 2);
    assert("ev"@.len() == 2);
    assert("pw"@.len() == 2);
    assert("fate"@.len() == 4);
    assert("will"@.len() == 4);
    assert("evade"@.len() == 5);
    assert("block"@.len() == 5);
    assert("power"@.len() == 5);
    assert("armor"@.len() == 5);
    assert("might"@.len() == 5);
    assert("parry"@.len() == 5);
    assert("morale"@.len() == 6);
    assert("armour"@.len() == 6);
    assert("incmit"@.len() == 6);
    assert("finesse"@.len() == 7);
    assert("incheal"@.len() == 7);
    assert("outheal"@.len() == 7);
    assert("physmit"@.len() == 7);
    assert("tactmit"@.len() == 7);
    assert("agility"@.len() == 7);
    assert("physmast"@.len() == 8);
    assert("tactmast"@.len() == 8);
    assert("vitality"@.len() == 8);
    assert("devrating"@.len() == 9);
    assert("overpower"@.len() == 9);
    assert("resistance"@.len() == 10);
    assert("critrating"@.len() == 10);
    assert("critdefence"@.len() == 11);
    assert("critdefense"@.len() == 11);
    assert("physmastery"@.len() == 11);
    assert("tactmastery"@.len() == 11);
    assert("finesserating"@.len() == 13);
    assert("criticalrating"@.len() == 14);
    assert("physmitigation"@.len() == 14);
    assert("tactmitigation"@.len() == 14);
    assert("incmitigations"@.len() == 14);
    assert("criticaldefence"@.len() == 15);
    assert("criticaldefense"@.len() == 15);
    assert("incominghealing"@.len() == 15);
    assert("outgoinghealing"@.len() == 15);
    assert("physicalmastery"@.len() == 15);
    assert("tacticalmastery"@.len() == 15);
    assert("physicalmitigation"@.len() == 18);
    assert("tacticalmitigation"@.len() == 18);
    assert("offensiveoverpower"@.len() == 18);
    assert("devastatingcriticalrating"@.len() == 25);
    assert("agility"@[0] != "finesse"@[0]);
    assert("agility"@[0] != "incheal"@[0]);
    assert("agility"@[0] != "outheal"@[0]);
    assert("agility"@[0] != "physmit"@[0]);
    assert("agility"@[0] != "tactmit"@[0]);
    assert("block"@[0] != "armor"@[0]);
    assert("criticaldefense"@[0] != "outgoinghealing"@[0]);
    assert("criticaldefense"@[0] != "physicalmastery"@[0]);
    assert("criticaldefense"@[0] != "tacticalmastery"@[0]);
    assert("evade"@[0] != "armor"@[0]);
    assert("evade"@[0] != "block"@[0]);
    assert("evade"@[0] != "parry"@[0]);
    assert("fate"@[0] != "will"@[0]);
    assert("incmitigations"@[0] != "criticalrating"@[0]);
    assert("incmitigations"@[0] != "physmitigation"@[0]);
    assert("incmitigations"@[0] != "tactmitigation"@[0]);
    assert("incominghealing"@[0] != "criticaldefence"@[0]);
    assert("incominghealing"@[0] != "criticaldefense"@[0]);
    assert("incominghealing"@[0] != "outgoinghealing"@[0]);
    assert("incominghealing"@[0] != "physicalmastery"@[0]);
    assert("incominghealing"@[0] != "tacticalmastery"@[0]);
    assert("might"@[0] != "armor"@[0]);
    assert("might"@[0] != "block"@[0]);
    assert("might"@[0] != "evade"@[0]);
    assert("might"@[0] != "parry"@[0]);
    assert("morale"@[0] != "armour"@[0]);
    assert("offensiveoverpower"@[0] != "physicalmitigation"@[0]);
    assert("offensiveoverpower"@[0] != "tacticalmitigation"@[0]);
    assert("outgoinghealing"@[0] != "physicalmastery"@[0]);
    assert("outgoinghealing"@[0] != "tacticalmastery"@[0]);
    assert("parry"@[0] != "armor"@[0]);
    assert("parry"@[0] != "block"@[0]);
    assert("power"@[0] != "armor"@[0]);
    assert("power"@[0] != "block"@[0]);
    assert("power"@[0] != "evade"@[0]);
    assert("power"@[0] != "might"@[0]);
    assert("power"@[1] != "parry"@[1]);
    assert("resistance"@[0] != "critrating"@[0]);
    assert("tacticalmastery"@[0] != "physicalmastery"@[0]);
    assert("tacticalmitigation"@[0] != "physicalmitigation"@[0]);
    assert("vitality"@[0] != "physmast"@[0]);
    assert("vitality"@[0] != "tactmast"@[0]);
}

/// Every stat's canonical key names that stat once lowercased and stripped
/// of spaces, underscores and hyphens, and the key is ASCII text.
pub proof fn lemma_stat_keys_name_their_stats(s: Stat)
    ensures
        ascii_text(stat_key_spec(s)),
        stat_named(without_chars(ascii_lower(stat_key_spec(s)), stat_name_separators())) == Some(s),
        unicode_lowercase(stat_key_spec(s)) == ascii_lower(stat_key_spec(s)) ==> stat_named(
            normalize_stat_name(stat_key_spec(s)),
        ) == Some(s),
{
    lemma_separators();
    lemma_names_of_stats();
    match s {
        Stat::Might => {
            reveal_strlit("Might");
            reveal_strlit("might");
            assert(ascii_word("Might"@));
            lemma_word_kept("Might"@, stat_name_separators());
            assert(ascii_lower("Might"@) =~= "might"@);
        },
        Stat::Agility => {
            reveal_strlit("Agility");
            reveal_strlit("agility");
            assert(ascii_word("Agility"@));
            lemma_word_kept("Agility"@, stat_name_separators());
            assert(ascii_lower("Agility"@) =~= "agility"@);
        },
        Stat::Vitality => {
            reveal_strlit("Vitality");
            reveal_strlit("vitality");
            assert(ascii_word("Vitality"@));
            lemma_word_kept("Vitality"@, stat_name_separators());
            assert(ascii_lower("Vitality"@) =~= "vitality"@);
        },
        Stat::Will => {
            reveal_strlit("Will");
            reveal_strlit("will");
            assert(ascii_word("Will"@));
            lemma_word_kept("Will"@, stat_name_separators());
            assert(ascii_lower("Will"@) =~= "will"@);
        },
        Stat::Fate => {
            reveal_strlit("Fate");
            reveal_strlit("fate");
            assert(ascii_word("Fate"@));
            lemma_word_kept("Fate"@, stat_name_separators());
            assert(ascii_lower("Fate"@) =~= "fate"@);
        },
        Stat::Morale => {
            reveal_strlit("Morale");
            reveal_strlit("morale");
            assert(ascii_word("Morale"@));
            lemma_word_kept("Morale"@, stat_name_separators());
            assert(ascii_lower("Morale"@) =~= "morale"@);
        },
        Stat::Power => {
            reveal_strlit("Power");
            reveal_strlit("power");
            assert(ascii_word("Power"@));
            lemma_word_kept("Power"@, stat_name_separators());
            assert(ascii_lower("Power"@) =~= "power"@);
        },
        Stat::DevRating => {
            reveal_strlit("DevRating");
            reveal_strlit("devrating");
            assert(ascii_word("DevRating"@));
            lemma_word_kept("DevRating"@, stat_name_separators());
            assert(ascii_lower("DevRating"@) =~= "devrating"@);
        },
        Stat::OffensiveOverpower => {
            reveal_strlit("OffensiveOverpower");
            reveal_strlit("offensiveoverpower");
            assert(ascii_word("OffensiveOverpower"@));
            lemma_word_kept("OffensiveOverpower"@, stat_name_separators());
            assert(ascii_lower("OffensiveOverpower"@) =~= "offensiveoverpower"@);
        },
        Stat::IncMitigations => {
            reveal_strlit("IncMitigations");
            reveal_strlit("incmitigations");
            assert(ascii_word("IncMitigations"@));
            lemma_word_kept("IncMitigations"@, stat_name_separators());
            assert(ascii_lower("IncMitigations"@) =~= "incmitigations"@);
        },
        Stat::Armor => {
            reveal_strlit("Armor");
            reveal_strlit("armor");
            assert(ascii_word("Armor"@));
            lemma_word_kept("Armor"@, stat_name_separators());
            assert(ascii_lower("Armor"@) =~= "armor"@);
        },
        Stat::CriticalRating => {
            reveal_strlit("CriticalRating");
            reveal_strlit("criticalrating");
            assert(ascii_word("CriticalRating"@));
            lemma_word_kept("CriticalRating"@, stat_name_separators());
            assert(ascii_lower("CriticalRating"@) =~= "criticalrating"@);
        },
        Stat::Finesse => {
            reveal_strlit("Finesse");
            reveal_strlit("finesse");
            assert(ascii_word("Finesse"@));
            lemma_word_kept("Finesse"@, stat_name_separators());
            assert(ascii_lower("Finesse"@) =~= "finesse"@);
        },
        Stat::PhysicalMastery => {
            reveal_strlit("PhysicalMastery");
            reveal_strlit("physicalmastery");
            assert(ascii_word("PhysicalMastery"@));
            lemma_word_kept("PhysicalMastery"@, stat_name_separators());
            assert(ascii_lower("PhysicalMastery"@) =~= "physicalmastery"@);
        },
        Stat::TacticalMastery => {
            reveal_strlit("TacticalMastery");
            reveal_strlit("tacticalmastery");
            assert(ascii_word("TacticalMastery"@));
            lemma_word_kept("TacticalMastery"@, stat_name_separators());
            assert(ascii_lower("TacticalMastery"@) =~= "tacticalmastery"@);
        },
        Stat::OutgoingHealing => {
            reveal_strlit("OutgoingHealing");
            reveal_strlit("outgoinghealing");
            assert(ascii_word("OutgoingHealing"@));
            lemma_word_kept("OutgoingHealing"@, stat_name_separators());
            assert(ascii_lower("OutgoingHealing"@) =~= "outgoinghealing"@);
        },
        Stat::Resistance => {
            reveal_strlit("Resistance");
            reveal_strlit("resistance");
            assert(ascii_word("Resistance"@));
            lemma_word_kept("Resistance"@, stat_name_separators());
            assert(ascii_lower("Resistance"@) =~= "resistance"@);
        },
        Stat::CriticalDefense => {
            reveal_strlit("CriticalDefense");
            reveal_strlit("criticaldefense");
            assert(ascii_word("CriticalDefense"@));
            lemma_word_kept("CriticalDefense"@, stat_name_separators());
            assert(ascii_lower("CriticalDefense"@) =~= "criticaldefense"@);
        },
        Stat::IncomingHealing => {
            reveal_strlit("IncomingHealing");
            reveal_strlit("incominghealing");
            assert(ascii_word("IncomingHealing"@));
            lemma_word_kept("IncomingHealing"@, stat_name_separators());
            assert(ascii_lower("IncomingHealing"@) =~= "incominghealing"@);
        },
        Stat::Block => {
            reveal_strlit("Block");
            reveal_strlit("block");
            assert(ascii_word("Block"@));
            lemma_word_kept("Block"@, stat_name_separators());
            assert(ascii_lower("Block"@) =~= "block"@);
        },
        Stat::Parry => {
            reveal_strlit("Parry");
            reveal_strlit("parry");
            assert(ascii_word("Parry"@));
            lemma_word_kept("Parry"@, stat_name_separators());
            assert(ascii_lower("Parry"@) =~= "parry"@);
        },
        Stat::Evade => {
            reveal_strlit("Evade");
            reveal_strlit("evade");
            assert(ascii_word("Evade"@));
            lemma_word_kept("Evade"@, stat_name_separators());
            assert(ascii_lower("Evade"@) =~= "evade"@);
        },
        Stat::PhysicalMitigation => {
            reveal_strlit("PhysicalMitigation");
            reveal_strlit("physicalmitigation");
            assert(ascii_word("PhysicalMitigation"@));
            lemma_word_kept("PhysicalMitigation"@, stat_name_separators());
            assert(ascii_lower("PhysicalMitigation"@) =~= "physicalmitigation"@);
        },
        Stat::TacticalMitigation => {
            reveal_strlit("TacticalMitigation");
            reveal_strlit("tacticalmitigation");
            assert(ascii_word("TacticalMitigation"@));
            lemma_word_kept("TacticalMitigation"@, stat_name_separators());
            assert(ascii_lower("TacticalMitigation"@) =~= "tacticalmitigation"@);
        },
    }
}

/// Every stat's display name names that stat once lowercased and stripped of
/// spaces, underscores and hyphens, but `Inc. Mitigations`, whose full stop
/// the parser keeps (`"inc.mitigations"` names no stat, as in the stat
/// parser it mirrors).
pub proof fn lemma_display_names_name_their_stats(s: Stat)
    requires
        s != Stat::IncMitigations,
    ensures
        ascii_text(display_name_spec(s)),
        stat_named(without_chars(ascii_lower(display_name_spec(s)), stat_name_separators())) == Some(s),
        unicode_lowercase(display_name_spec(s)) == ascii_lower(display_name_spec(s)) ==> stat_named(
            normalize_stat_name(display_name_spec(s)),
        ) == Some(s),
{
    lemma_separators();
    lemma_names_of_stats();
    match s {
        Stat::Might => {
            reveal_strlit("Might");
            reveal_strlit("might");
            assert(ascii_word("Might"@));
            lemma_word_kept("Might"@, stat_name_separators());
            assert(ascii_lower("Might"@) =~= "might"@);
        },
        Stat::Agility => {
            reveal_strlit("Agility");
            reveal_strlit("agility");
            assert(ascii_word("Agility"@));
            lemma_word_kept("Agility"@, stat_name_separators());
            assert(ascii_lower("Agility"@) =~= "agility"@);
        },
        Stat::Vitality => {
            reveal_strlit("Vitality");
            reveal_strlit("vitality");
            assert(ascii_word("Vitality"@));
            lemma_word_kept("Vitality"@, stat_name_separators());
            assert(ascii_lower("Vitality"@) =~= "vitality"@);
        },
        Stat::Will => {
            reveal_strlit("Will");
            reveal_strlit("will");
            assert(ascii_word("Will"@));
            lemma_word_kept("Will"@, stat_name_separators());
            assert(ascii_lower("Will"@) =~= "will"@);
        },
        Stat::Fate => {
            reveal_strlit("Fate");
            reveal_strlit("fate");
            assert(ascii_word("Fate"@));
            lemma_word_kept("Fate"@, stat_name_separators());
            assert(ascii_lower("Fate"@) =~= "fate"@);
        },
        Stat::Morale => {
            reveal_strlit("Morale");
            reveal_strlit("morale");
            assert(ascii_word("Morale"@));
            lemma_word_kept("Morale"@, stat_name_separators());
            assert(ascii_lower("Morale"@) =~= "morale"@);
        },
        Stat::Power => {
            reveal_strlit("Power");
            reveal_strlit("power");
            assert(ascii_word("Power"@));
            lemma_word_kept("Power"@, stat_name_separators());
            assert(ascii_lower("Power"@) =~= "power"@);
        },
        Stat::DevRating => {
            reveal_strlit("Dev Rating");
            reveal_strlit("Dev");
            reveal_strlit("Rating");
            reveal_strlit("devrating");
            assert("Dev Rating"@ =~= "Dev"@ + seq![' '] + "Rating"@);
            assert(ascii_word("Dev"@));
            assert(ascii_word("Rating"@));
            lemma_two_words_joined("Dev"@, "Rating"@, stat_name_separators());
            assert(ascii_lower("Dev"@) + ascii_lower("Rating"@) =~= "devrating"@);
        },
        Stat::OffensiveOverpower => {
            reveal_strlit("Offensive Overpower");
            reveal_strlit("Offensive");
            reveal_strlit("Overpower");
            reveal_strlit("offensiveoverpower");
            assert("Offensive Overpower"@ =~= "Offensive"@ + seq![' '] + "Overpower"@);
            assert(ascii_word("Offensive"@));
            assert(ascii_word("Overpower"@));
            lemma_two_words_joined("Offensive"@, "Overpower"@, stat_name_separators());
            assert(ascii_lower("Offensive"@) + ascii_lower("Overpower"@) =~= "offensiveoverpower"@);
        },
        Stat::IncMitigations => {},
        Stat::Armor => {
            reveal_strlit("Armour");
            reveal_strlit("armour");
            assert(ascii_word("Armour"@));
            lemma_word_kept("Armour"@, stat_name_separators());
            assert(ascii_lower("Armour"@) =~= "armour"@);
        },
        Stat::CriticalRating => {
            reveal_strlit("Critical Rating");
            reveal_strlit("Critical");
            reveal_strlit("Rating");
            reveal_strlit("criticalrating");
            assert("Critical Rating"@ =~= "Critical"@ + seq![' '] + "Rating"@);
            assert(ascii_word("Critical"@));
            assert(ascii_word("Rating"@));
            lemma_two_words_joined("Critical"@, "Rating"@, stat_name_separators());
            assert(ascii_lower("Critical"@) + ascii_lower("Rating"@) =~= "criticalrating"@);
        },
        Stat::Finesse => {
            reveal_strlit("Finesse");
            reveal_strlit("finesse");
            assert(ascii_word("Finesse"@));
            lemma_word_kept("Finesse"@, stat_name_separators());
            assert(ascii_lower("Finesse"@) =~= "finesse"@);
        },
        Stat::PhysicalMastery => {
            reveal_strlit("Physical Mastery");
            reveal_strlit("Physical");
            reveal_strlit("Mastery");
            reveal_strlit("physicalmastery");
            assert("Physical Mastery"@ =~= "Physical"@ + seq![' '] + "Mastery"@);
            assert(ascii_word("Physical"@));
            assert(ascii_word("Mastery"@));
            lemma_two_words_joined("Physical"@, "Mastery"@, stat_name_separators());
            assert(ascii_lower("Physical"@) + ascii_lower("Mastery"@) =~= "physicalmastery"@);
        },
        Stat::TacticalMastery => {
            reveal_strlit("Tactical Mastery");
            reveal_strlit("Tactical");
            reveal_strlit("Mastery");
            reveal_strlit("tacticalmastery");
            assert("Tactical Mastery"@ =~= "Tactical"@ + seq![' '] + "Mastery"@);
            assert(ascii_word("Tactical"@));
            assert(ascii_word("Mastery"@));
            lemma_two_words_joined("Tactical"@, "Mastery"@, stat_name_separators());
            assert(ascii_lower("Tactical"@) + ascii_lower("Mastery"@) =~= "tacticalmastery"@);
        },
        Stat::OutgoingHealing => {
            reveal_strlit("Outgoing Healing");
            reveal_strlit("Outgoing");
            reveal_strlit("Healing");
            reveal_strlit("outgoinghealing");
            assert("Outgoing Healing"@ =~= "Outgoing"@ + seq![' '] + "Healing"@);
            assert(ascii_word("Outgoing"@));
            assert(ascii_word("Healing"@));
            lemma_two_words_joined("Outgoing"@, "Healing"@, stat_name_separators());
            assert(ascii_lower("Outgoing"@) + ascii_lower("Healing"@) =~= "outgoinghealing"@);
        },
        Stat::Resistance => {
            reveal_strlit("Resistance");
            reveal_strlit("resistance");
            assert(ascii_word("Resistance"@));
            lemma_word_kept("Resistance"@, stat_name_separators());
            assert(ascii_lower("Resistance"@) =~= "resistance"@);
        },
        Stat::CriticalDefense => {
            reveal_strlit("Critical Defense");
            reveal_strlit("Critical");
            reveal_strlit("Defense");
            reveal_strlit("criticaldefense");
            assert("Critical Defense"@ =~= "Critical"@ + seq![' '] + "Defense"@);
            assert(ascii_word("Critical"@));
            assert(ascii_word("Defense"@));
            lemma_two_words_joined("Critical"@, "Defense"@, stat_name_separators());
            assert(ascii_lower("Critical"@) + ascii_lower("Defense"@) =~= "criticaldefense"@);
        },
        Stat::IncomingHealing => {
            reveal_strlit("Incoming Healing");
            reveal_strlit("Incoming");
            reveal_strlit("Healing");
            reveal_strlit("incominghealing");
            assert("Incoming Healing"@ =~= "Incoming"@ + seq![' '] + "Healing"@);
            assert(ascii_word("Incoming"@));
            assert(ascii_word("Healing"@));
            lemma_two_words_joined("Incoming"@, "Healing"@, stat_name_separators());
            assert(ascii_lower("Incoming"@) + ascii_lower("Healing"@) =~= "incominghealing"@);
        },
        Stat::Block => {
            reveal_strlit("Block");
            reveal_strlit("block");
            assert(ascii_word("Block"@));
            lemma_word_kept("Block"@, stat_name_separators());
            assert(ascii_lower("Block"@) =~= "block"@);
        },
        Stat::Parry => {
            reveal_strlit("Parry");
            reveal_strlit("parry");
            assert(ascii_word("Parry"@));
            lemma_word_kept("Parry"@, stat_name_separators());
            assert(ascii_lower("Parry"@) =~= "parry"@);
        },
        Stat::Evade => {
            reveal_strlit("Evade");
            reveal_strlit("evade");
            assert(ascii_word("Evade"@));
            lemma_word_kept("Evade"@, stat_name_separators());
            assert(ascii_lower("Evade"@) =~= "evade"@);
        },
        Stat::PhysicalMitigation => {
            reveal_strlit("Physical Mitigation");
            reveal_strlit("Physical");
            reveal_strlit("Mitigation");
            reveal_strlit("physicalmitigation");
            assert("Physical Mitigation"@ =~= "Physical"@ + seq![' '] + "Mitigation"@);
            assert(ascii_word("Physical"@));
            assert(ascii_word("Mitigation"@));
            lemma_two_words_joined("Physical"@, "Mitigation"@, stat_name_separators());
            assert(ascii_lower("Physical"@) + ascii_lower("Mitigation"@) =~= "physicalmitigation"@);
        },
        Stat::TacticalMitigation => {
            reveal_strlit("Tactical Mitigation");
            reveal_strlit("Tactical");
            reveal_strlit("Mitigation");
            reveal_strlit("tacticalmitigation");
            assert("Tactical Mitigation"@ =~= "Tactical"@ + seq![' '] + "Mitigation"@);
            assert(ascii_word("Tactical"@));
            assert(ascii_word("Mitigation"@));
            lemma_two_words_joined("Tactical"@, "Mitigation"@, stat_name_separators());
            assert(ascii_lower("Tactical"@) + ascii_lower("Mitigation"@) =~= "tacticalmitigation"@);
        },
    }
}

/// Every longer name the stat parser accepts is a spelling of the stat it
/// names: it begins with the same three letters as that stat's canonical key
/// (`critrating` and `criticalrating` with `Cri` of `CriticalRating`,
/// `physmast` with `Phy` of `PhysicalMastery`), but `overpower`, which
/// names Offensive Overpower by its second word. Every two-letter name is
/// the abbreviation of the stat it names.
pub proof fn lemma_stat_spellings_belong_to_their_stats(n: Seq<char>)
    ensures
        (stat_named(n) is Some && n.len() > 2 && n != "overpower"@) ==> forall|i: int|
            0 <= i < 3 ==> #[trigger] n[i] == ascii_lower_char(stat_key_spec(stat_named(n)->0)[i]),
        (stat_named(n) is Some && n.len() <= 2) ==> abbreviation_spec(stat_named(n)->0) == Some(n),
{
    reveal_strlit("pa");
    reveal_strlit("cd");
    reveal_strlit("ih");
    reveal_strlit("oh");
    reveal_strlit("bl");
    reveal_strlit("ml");
    reveal_strlit("am");
    reveal_strlit("pm");
    reveal_strlit("tm");
    reveal_strlit("fn");
    reveal_strlit("cr");
    reveal_strlit("rs");
    reveal_strlit("pt");
    reveal_strlit("tt");
    reveal_strlit("ev");
    reveal_strlit("pw");
    reveal_strlit("Fate");
    reveal_strlit("fate");
    reveal_strlit("Will");
    reveal_strlit("will");
    reveal_strlit("Evade");
    reveal_strlit("evade");
    reveal_strlit("Block");
    reveal_strlit("block");
    reveal_strlit("Power");
    reveal_strlit("power");
    reveal_strlit("Armor");
    reveal_strlit("armor");
    reveal_strlit("Might");
    reveal_strlit("might");
    reveal_strlit("Parry");
    reveal_strlit("parry");
    reveal_strlit("Morale");
    reveal_strlit("morale");
    reveal_strlit("armour");
    reveal_strlit("incmit");
    reveal_strlit("Finesse");
    reveal_strlit("finesse");
    reveal_strlit("incheal");
    reveal_strlit("outheal");
    reveal_strlit("physmit");
    reveal_strlit("tactmit");
    reveal_strlit("Agility");
    reveal_strlit("agility");
    reveal_strlit("physmast");
    reveal_strlit("tactmast");
    reveal_strlit("Vitality");
    reveal_strlit("vitality");
    reveal_strlit("DevRating");
    reveal_strlit("devrating");
    reveal_strlit("overpower");
    reveal_strlit("Resistance");
    reveal_strlit("resistance");
    reveal_strlit("critrating");
    reveal_strlit("critdefence");
    reveal_strlit("critdefense");
    reveal_strlit("physmastery");
    reveal_strlit("tactmastery");
    reveal_strlit("finesserating");
    reveal_strlit("CriticalRating");
    reveal_strlit("criticalrating");
    reveal_strlit("physmitigation");
    reveal_strlit("tactmitigation");
    reveal_strlit("IncMitigations");
    reveal_strlit("incmitigations");
    reveal_strlit("criticaldefence");
    reveal_strlit("CriticalDefense");
    reveal_strlit("criticaldefense");
    reveal_strlit("IncomingHealing");
    reveal_strlit("OutgoingHealing");
    reveal_strlit("incominghealing");
    reveal_strlit("outgoinghealing");
    reveal_strlit("PhysicalMastery");
    reveal_strlit("TacticalMastery");
    reveal_strlit("physicalmastery");
    reveal_strlit("tacticalmastery");
    reveal_strlit("PhysicalMitigation");
    reveal_strlit("TacticalMitigation");
    reveal_strlit("physicalmitigation");
    reveal_strlit("tacticalmitigation");
    reveal_strlit("OffensiveOverpower");
    reveal_strlit("offensiveoverpower");
    reveal_strlit("devastatingcriticalrating");
}

} // verus!
