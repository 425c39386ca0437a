//! Equipment slots, gear items, and assembled gear sets.
use vstd::prelude::*;

use crate::stat::{Stat, StatMap};
use crate::text::{concat3, eq_lit, push_char};

verus! {

/// Equipment slots that the optimizer considers.
/// Excluded: the craft-tool and bridle slots.
#[derive(Debug, Clone, Copy, PartialEq, Eq, Hash, Structural)]
pub enum Slot {
    Head,
    Chest,
    Legs,
    Hands,
    Feet,
    Shoulders,
    Back,
    Wrist1,
    Wrist2,
    Neck,
    Finger1,
    Finger2,
    Ear1,
    Ear2,
    Pocket,
    MainHand,
    OffHand,
    Ranged,
    ClassItem,
}

/// The number of slots.
pub const SLOT_COUNT: usize = 19;

/// Position of a slot in the canonical slot order.
pub open spec fn slot_index_spec(s: Slot) -> int {
    match s {
        Slot::Head => 0,
        Slot::Chest => 1,
        Slot::Legs => 2,
        Slot::Hands => 3,
        Slot::Feet => 4,
        Slot::Shoulders => 5,
        Slot::Back => 6,
        Slot::Wrist1 => 7,
        Slot::Wrist2 => 8,
        Slot::Neck => 9,
        Slot::Finger1 => 10,
        Slot::Finger2 => 11,
        Slot::Ear1 => 12,
        Slot::Ear2 => 13,
        Slot::Pocket => 14,
        Slot::MainHand => 15,
        Slot::OffHand => 16,
        Slot::Ranged => 17,
        Slot::ClassItem => 18,
    }
}

/// The canonical slot order.
pub open spec fn all_slots_spec() -> Seq<Slot> {
    seq![Slot::Head, Slot::Chest, Slot::Legs, Slot::Hands, Slot::Feet, Slot::Shoulders, Slot::Back, Slot::Wrist1, Slot::Wrist2, Slot::Neck, Slot::Finger1, Slot::Finger2, Slot::Ear1, Slot::Ear2, Slot::Pocket, Slot::MainHand, Slot::OffHand, Slot::Ranged, Slot::ClassItem]
}

/// Position of a slot in the canonical slot order.
pub fn slot_index(s: Slot) -> (i: usize)
    ensures
        i as int == slot_index_spec(s),
        i < SLOT_COUNT,
{
    match s {
        Slot::Head => 0,
        Slot::Chest => 1,
        Slot::Legs => 2,
        Slot::Hands => 3,
        Slot::Feet => 4,
        Slot::Shoulders => 5,
        Slot::Back => 6,
        Slot::Wrist1 => 7,
        Slot::Wrist2 => 8,
        Slot::Neck => 9,
        Slot::Finger1 => 10,
        Slot::Finger2 => 11,
        Slot::Ear1 => 12,
        Slot::Ear2 => 13,
        Slot::Pocket => 14,
        Slot::MainHand => 15,
        Slot::OffHand => 16,
        Slot::Ranged => 17,
        Slot::ClassItem => 18,
    }
}

/// The slot order is a bijection onto `0..19`.
pub proof fn lemma_slot_index()
    ensures
        forall|s: Slot| 0 <= #[trigger] slot_index_spec(s) < SLOT_COUNT,
        forall|s: Slot| #[trigger] all_slots_spec()[slot_index_spec(s)] == s,
        forall|a: Slot, b: Slot| #[trigger] slot_index_spec(a) == #[trigger] slot_index_spec(b) ==> a == b,
        all_slots_spec().len() == SLOT_COUNT,
        forall|i: int| 0 <= i < SLOT_COUNT ==> slot_index_spec(#[trigger] all_slots_spec()[i]) == i,
{
}

/// The canonical display string of a slot.
pub open spec fn slot_display_spec(s: Slot) -> Seq<char> {
    match s {
        Slot::Head => "Head"@,
        Slot::Chest => "Chest"@,
        Slot::Legs => "Legs"@,
        Slot::Hands => "Hands"@,
        Slot::Feet => "Feet"@,
        Slot::Shoulders => "Shoulders"@,
        Slot::Back => "Back"@,
        Slot::Wrist1 => "Wrist"@,
        Slot::Wrist2 => "Wrist"@,
        Slot::Neck => "Neck"@,
        Slot::Finger1 => "Finger"@,
        Slot::Finger2 => "Finger"@,
        Slot::Ear1 => "Ear"@,
        Slot::Ear2 => "Ear"@,
        Slot::Pocket => "Pocket"@,
        Slot::MainHand => "Main-hand"@,
        Slot::OffHand => "Off-hand"@,
        Slot::Ranged => "Ranged"@,
        Slot::ClassItem => "Class Item"@,
    }
}

impl Slot {
    /// Every slot in canonical order.
    pub fn all() -> (v: Vec<Slot>)
        ensures
            v@ == all_slots_spec(),
    {
        let v = vec![Slot::Head, Slot::Chest, Slot::Legs, Slot::Hands, Slot::Feet, Slot::Shoulders, Slot::Back, Slot::Wrist1, Slot::Wrist2, Slot::Neck, Slot::Finger1, Slot::Finger2, Slot::Ear1, Slot::Ear2, Slot::Pocket, Slot::MainHand, Slot::OffHand, Slot::Ranged, Slot::ClassItem];
        assert(v@ =~= all_slots_spec());
        v
    }

    /// Canonical display string, used in TOML `slot = "..."` values, item DB
    /// entries, report labels, and anywhere the slot is shown to the user.
    /// Paired families share one unnumbered name (`Wrist`, `Finger`, `Ear`).
    pub fn display_name(self) -> (r: &'static str)
        ensures
            r@ == slot_display_spec(self),
    {
        match self {
            Slot::Head => "Head",
            Slot::Chest => "Chest",
            Slot::Legs => "Legs",
            Slot::Hands => "Hands",
            Slot::Feet => "Feet",
            Slot::Shoulders => "Shoulders",
            Slot::Back => "Back",
            Slot::Wrist1 => "Wrist",
            Slot::Wrist2 => "Wrist",
            Slot::Neck => "Neck",
            Slot::Finger1 => "Finger",
            Slot::Finger2 => "Finger",
            Slot::Ear1 => "Ear",
            Slot::Ear2 => "Ear",
            Slot::Pocket => "Pocket",
            Slot::MainHand => "Main-hand",
            Slot::OffHand => "Off-hand",
            Slot::Ranged => "Ranged",
            Slot::ClassItem => "Class Item",
        }
    }
}

/// The slot a canonical display string names: the first slot in canonical
/// order with that display string, so pooled families map to their first
/// member (`Wrist1`, `Finger1`, `Ear1`).
pub open spec fn parse_slot_display_spec(s: Seq<char>) -> Option<Slot> {
    if s == "Head"@ {
        Some(Slot::Head)
    } else if s == "Chest"@ {
        Some(Slot::Chest)
    } else if s == "Legs"@ {
        Some(Slot::Legs)
    } else if s == "Hands"@ {
        Some(Slot::Hands)
    } else if s == "Feet"@ {
        Some(Slot::Feet)
    } else if s == "Shoulders"@ {
        Some(Slot::Shoulders)
    } else if s == "Back"@ {
        Some(Slot::Back)
    } else if s == "Wrist"@ {
        Some(Slot::Wrist1)
    } else if s == "Neck"@ {
        Some(Slot::Neck)
    } else if s == "Finger"@ {
        Some(Slot::Finger1)
    } else if s == "Ear"@ {
        Some(Slot::Ear1)
    } else if s == "Pocket"@ {
        Some(Slot::Pocket)
    } else if s == "Main-hand"@ {
        Some(Slot::MainHand)
    } else if s == "Off-hand"@ {
        Some(Slot::OffHand)
    } else if s == "Ranged"@ {
        Some(Slot::Ranged)
    } else if s == "Class Item"@ {
        Some(Slot::ClassItem)
    } else {
        None
    }
}

/// Parse a canonical external slot string back to a Slot variant.
///
/// Pooled-family strings map to the first internal variant (`Wrist1`,
/// `Finger1`, `Ear1`) by table order.
pub fn parse_slot_display(s: &str) -> (r: Option<Slot>)
    ensures
        r == parse_slot_display_spec(s@),
{
    let v = crate::text::chars_of(s);
    if eq_lit(v.as_slice(), "Head") {
        Some(Slot::Head)
    } else if eq_lit(v.as_slice(), "Chest") {
        Some(Slot::Chest)
    } else if eq_lit(v.as_slice(), "Legs") {
        Some(Slot::Legs)
    } else if eq_lit(v.as_slice(), "Hands") {
        Some(Slot::Hands)
    } else if eq_lit(v.as_slice(), "Feet") {
        Some(Slot::Feet)
    } else if eq_lit(v.as_slice(), "Shoulders") {
        Some(Slot::Shoulders)
    } else if eq_lit(v.as_slice(), "Back") {
        Some(Slot::Back)
    } else if eq_lit(v.as_slice(), "Wrist") {
        Some(Slot::Wrist1)
    } else if eq_lit(v.as_slice(), "Neck") {
        Some(Slot::Neck)
    } else if eq_lit(v.as_slice(), "Finger") {
        Some(Slot::Finger1)
    } else if eq_lit(v.as_slice(), "Ear") {
        Some(Slot::Ear1)
    } else if eq_lit(v.as_slice(), "Pocket") {
        Some(Slot::Pocket)
    } else if eq_lit(v.as_slice(), "Main-hand") {
        Some(Slot::MainHand)
    } else if eq_lit(v.as_slice(), "Off-hand") {
        Some(Slot::OffHand)
    } else if eq_lit(v.as_slice(), "Ranged") {
        Some(Slot::Ranged)
    } else if eq_lit(v.as_slice(), "Class Item") {
        Some(Slot::ClassItem)
    } else {
        None
    }
}

/// A single gear item with its stats resolved.
#[derive(Debug, Clone)]
pub struct GearItem {
    /// Display name as exported by the plugin.
    pub name: String,
    pub slot: Slot,
    /// True for two-handed `MainHand` weapons, which occupy both hand slots
    /// and forbid any `OffHand` selection.
    pub two_handed: bool,
    /// True for Either-hand items: resolved to `OffHand`, but equippable in
    /// either hand position.
    pub either_hand: bool,
    /// All stats on this item; missing stats are 0.
    pub stats: StatMap,
}

impl GearItem {
    /// Return the value of a stat, or 0 if not present.
    pub fn stat(&self, s: &Stat) -> (v: i64)
        ensures
            v == self.stats.value(*s),
    {
        self.stats.get(*s)
    }

    /// A field-for-field copy.
    pub fn duplicate(&self) -> (r: GearItem)
        ensures
            r == *self,
    {
        GearItem {
            name: self.name.clone(),
            slot: self.slot,
            two_handed: self.two_handed,
            either_hand: self.either_hand,
            stats: self.stats,
        }
    }
}

/// The synthetic optimizer key of one item instance:
/// `<index, zero-padded to 4>::<slot display>::<name>`.
pub open spec fn candidate_key_spec(idx: nat, slot: Slot, name: Seq<char>) -> Seq<char> {
    crate::text::zero_pad(crate::text::decimal_string(idx), 4) + "::"@ + slot_display_spec(slot)
        + "::"@ + name
}

/// Synthetic optimizer key for one TOML item instance.
///
/// Display names are not unique: a user may own multiple copies of the same
/// item, so optimizer identity must include the instance's document index.
pub fn optimizer_candidate_key(idx: usize, item: &GearItem) -> (k: String)
    ensures
        k@ == candidate_key_spec(idx as nat, item.slot, item.name@),
{
    let digits = crate::text::zero_pad_chars(crate::text::decimal_chars(idx as u64), 4);
    let mut k = crate::text::string_from_chars(digits.as_slice());
    k.append("::");
    k.append(item.slot.display_name());
    k.append("::");
    k.append(item.name.as_str());
    k
}

proof fn lemma_digit_char(d: int)
    requires
        0 <= d < 10,
    ensures
        crate::text::is_digit(crate::text::digit_char(d)),
        crate::text::digit_value(crate::text::digit_char(d)) == d,
{
}

proof fn lemma_decimal_string_value(n: nat)
    ensures
        crate::text::all_digits(crate::text::decimal_string(n)),
        crate::text::decimal_value(crate::text::decimal_string(n)) == n,
    decreases n,
{
    let ds = crate::text::decimal_string(n);
    if n < 10 {
        lemma_digit_char(n as int);
        assert(ds.drop_last() =~= Seq::<char>::empty());
        assert(crate::text::decimal_value(Seq::<char>::empty()) == 0);
        assert(ds.last() == crate::text::digit_char(n as int));
    } else {
        lemma_decimal_string_value(n / 10);
        lemma_digit_char((n % 10) as int);
        assert(ds.drop_last() =~= crate::text::decimal_string(n / 10));
        assert(ds.last() == crate::text::digit_char((n % 10) as int));
        assert(crate::text::decimal_value(ds) == 10 * crate::text::decimal_value(ds.drop_last()) + crate::text::digit_value(ds.last()));
        assert(n == 10 * (n / 10) + n % 10);
    }
}

proof fn lemma_zeros_then(k: nat, s: Seq<char>)
    ensures
        crate::text::decimal_value(Seq::new(k, |i: int| '0') + s) == crate::text::decimal_value(s),
    decreases s.len() + k,
{
    let z = Seq::new(k, |i: int| '0');
    if s.len() == 0 {
        assert(z + s =~= z);
        if k > 0 {
            assert(z.drop_last() =~= Seq::new((k - 1) as nat, |i: int| '0'));
            lemma_zeros_then((k - 1) as nat, Seq::empty());
            assert(Seq::new((k - 1) as nat, |i: int| '0') + Seq::<char>::empty() =~= Seq::new((k - 1) as nat, |i: int| '0'));
        }
    } else {
        assert((z + s).drop_last() =~= z + s.drop_last());
        lemma_zeros_then(k, s.drop_last());
    }
}

proof fn lemma_padded_value(n: nat)
    ensures
        crate::text::all_digits(crate::text::zero_pad(crate::text::decimal_string(n), 4)),
        crate::text::decimal_value(crate::text::zero_pad(crate::text::decimal_string(n), 4)) == n,
{
    lemma_decimal_string_value(n);
    let ds = crate::text::decimal_string(n);
    if ds.len() < 4 {
        let k = (4 - ds.len()) as nat;
        lemma_zeros_then(k, ds);
        let p = crate::text::zero_pad(ds, 4);
        assert forall|i: int| 0 <= i < p.len() implies crate::text::is_digit(#[trigger] p[i]) by {
            if i >= k {
                assert(p[i] == ds[i - k]);
            }
        }
    }
}

/// Two instances of one item at different document indices never share an
/// optimizer key: the key starts with the index, and the digits end where the
/// first `::` begins.
pub proof fn lemma_candidate_keys_distinct(i: nat, j: nat, slot: Slot, name: Seq<char>)
    requires
        i != j,
    ensures
        candidate_key_spec(i, slot, name) != candidate_key_spec(j, slot, name),
{
    lemma_padded_value(i);
    lemma_padded_value(j);
    let p = crate::text::zero_pad(crate::text::decimal_string(i), 4);
    let q = crate::text::zero_pad(crate::text::decimal_string(j), 4);
    let ki = candidate_key_spec(i, slot, name);
    let kj = candidate_key_spec(j, slot, name);
    let ti = "::"@ + slot_display_spec(slot) + "::"@ + name;
    reveal_strlit("::");
    assert(ki =~= p + ti);
    assert(kj =~= q + ti);
    if ki == kj {
        if p.len() < q.len() {
            assert(ki[p.len() as int] == ':');
            assert(kj[p.len() as int] == q[p.len() as int]);
            assert(crate::text::is_digit(q[p.len() as int]));
        } else if q.len() < p.len() {
            assert(kj[q.len() as int] == ':');
            assert(ki[q.len() as int] == p[q.len() as int]);
            assert(crate::text::is_digit(p[q.len() as int]));
        } else {
            assert(p =~= ki.subrange(0, p.len() as int));
            assert(q =~= kj.subrange(0, q.len() as int));
        }
    }
}

/// Every slot's display string reads back as its family's first slot: the
/// slot itself, or `Wrist1`, `Finger1`, `Ear1` for the second of a pair.
pub proof fn lemma_slot_display_round_trip(s: Slot)
    ensures
        parse_slot_display_spec(slot_display_spec(s)) == Some(crate::slot_resolver::family_of(s)),
{
    match s {
        Slot::Head => {
        },
        Slot::Chest => {
            assert("Chest"@ != "Head"@) by {
                reveal_strlit("Chest");
                reveal_strlit("Head");
                assert("Chest"@.len() != "Head"@.len() || "Chest"@[0] != "Head"@[0]);
            }
        },
        Slot::Legs => {
            assert("Legs"@ != "Head"@) by {
                reveal_strlit("Legs");
                reveal_strlit("Head");
                assert("Legs"@.len() != "Head"@.len() || "Legs"@[0] != "Head"@[0]);
            }
            assert("Legs"@ != "Chest"@) by {
                reveal_strlit("Legs");
                reveal_strlit("Chest");
                assert("Legs"@.len() != "Chest"@.len() || "Legs"@[0] != "Chest"@[0]);
            }
        },
        Slot::Hands => {
            assert("Hands"@ != "Head"@) by {
                reveal_strlit("Hands");
                reveal_strlit("Head");
                assert("Hands"@.len() != "Head"@.len() || "Hands"@[0] != "Head"@[0]);
            }
            assert("Hands"@ != "Chest"@) by {
                reveal_strlit("Hands");
                reveal_strlit("Chest");
                assert("Hands"@.len() != "Chest"@.len() || "Hands"@[0] != "Chest"@[0]);
            }
            assert("Hands"@ != "Legs"@) by {
                reveal_strlit("Hands");
                reveal_strlit("Legs");
                assert("Hands"@.len() != "Legs"@.len() || "Hands"@[0] != "Legs"@[0]);
            }
        },
        Slot::Feet => {
            assert("Feet"@ != "Head"@) by {
                reveal_strlit("Feet");
                reveal_strlit("Head");
                assert("Feet"@.len() != "Head"@.len() || "Feet"@[0] != "Head"@[0]);
            }
            assert("Feet"@ != "Chest"@) by {
                reveal_strlit("Feet");
                reveal_strlit("Chest");
                assert("Feet"@.len() != "Chest"@.len() || "Feet"@[0] != "Chest"@[0]);
            }
            assert("Feet"@ != "Legs"@) by {
                reveal_strlit("Feet");
                reveal_strlit("Legs");
                assert("Feet"@.len() != "Legs"@.len() || "Feet"@[0] != "Legs"@[0]);
            }
            assert("Feet"@ != "Hands"@) by {
                reveal_strlit("Feet");
                reveal_strlit("Hands");
                assert("Feet"@.len() != "Hands"@.len() || "Feet"@[0] != "Hands"@[0]);
            }
        },
        Slot::Shoulders => {
            assert("Shoulders"@ != "Head"@) by {
                reveal_strlit("Shoulders");
                reveal_strlit("Head");
                assert("Shoulders"@.len() != "Head"@.len() || "Shoulders"@[0] != "Head"@[0]);
            }
            assert("Shoulders"@ != "Chest"@) by {
                reveal_strlit("Shoulders");
                reveal_strlit("Chest");
                assert("Shoulders"@.len() != "Chest"@.len() || "Shoulders"@[0] != "Chest"@[0]);
            }
            assert("Shoulders"@ != "Legs"@) by {
                reveal_strlit("Shoulders");
                reveal_strlit("Legs");
                assert("Shoulders"@.len() != "Legs"@.len() || "Shoulders"@[0] != "Legs"@[0]);
            }
            assert("Shoulders"@ != "Hands"@) by {
                reveal_strlit("Shoulders");
                reveal_strlit("Hands");
                assert("Shoulders"@.len() != "Hands"@.len() || "Shoulders"@[0] != "Hands"@[0]);
            }
            assert("Shoulders"@ != "Feet"@) by {
                reveal_strlit("Shoulders");
                reveal_strlit("Feet");
                assert("Shoulders"@.len() != "Feet"@.len() || "Shoulders"@[0] != "Feet"@[0]);
            }
        },
        Slot::Back => {
            assert("Back"@ != "Head"@) by {
                reveal_strlit("Back");
                reveal_strlit("Head");
                assert("Back"@.len() != "Head"@.len() || "Back"@[0] != "Head"@[0]);
            }
            assert("Back"@ != "Chest"@) by {
                reveal_strlit("Back");
                reveal_strlit("Chest");
                assert("Back"@.len() != "Chest"@.len() || "Back"@[0] != "Chest"@[0]);
            }
            assert("Back"@ != "Legs"@) by {
                reveal_strlit("Back");
                reveal_strlit("Legs");
                assert("Back"@.len() != "Legs"@.len() || "Back"@[0] != "Legs"@[0]);
            }
            assert("Back"@ != "Hands"@) by {
                reveal_strlit("Back");
                reveal_strlit("Hands");
                assert("Back"@.len() != "Hands"@.len() || "Back"@[0] != "Hands"@[0]);
            }
            assert("Back"@ != "Feet"@) by {
                reveal_strlit("Back");
                reveal_strlit("Feet");
                assert("Back"@.len() != "Feet"@.len() || "Back"@[0] != "Feet"@[0]);
            }
            assert("Back"@ != "Shoulders"@) by {
                reveal_strlit("Back");
                reveal_strlit("Shoulders");
                assert("Back"@.len() != "Shoulders"@.len() || "Back"@[0] != "Shoulders"@[0]);
            }
        },
        Slot::Wrist1 => {
            assert("Wrist"@ != "Head"@) by {
                reveal_strlit("Wrist");
                reveal_strlit("Head");
                assert("Wrist"@.len() != "Head"@.len() || "Wrist"@[0] != "Head"@[0]);
            }
            assert("Wrist"@ != "Chest"@) by {
                reveal_strlit("Wrist");
                reveal_strlit("Chest");
                assert("Wrist"@.len() != "Chest"@.len() || "Wrist"@[0] != "Chest"@[0]);
            }
            assert("Wrist"@ != "Legs"@) by {
                reveal_strlit("Wrist");
                reveal_strlit("Legs");
                assert("Wrist"@.len() != "Legs"@.len() || "Wrist"@[0] != "Legs"@[0]);
            }
            assert("Wrist"@ != "Hands"@) by {
                reveal_strlit("Wrist");
                reveal_strlit("Hands");
                assert("Wrist"@.len() != "Hands"@.len() || "Wrist"@[0] != "Hands"@[0]);
            }
            assert("Wrist"@ != "Feet"@) by {
                reveal_strlit("Wrist");
                reveal_strlit("Feet");
                assert("Wrist"@.len() != "Feet"@.len() || "Wrist"@[0] != "Feet"@[0]);
            }
            assert("Wrist"@ != "Shoulders"@) by {
                reveal_strlit("Wrist");
                reveal_strlit("Shoulders");
                assert("Wrist"@.len() != "Shoulders"@.len() || "Wrist"@[0] != "Shoulders"@[0]);
            }
            assert("Wrist"@ != "Back"@) by {
                reveal_strlit("Wrist");
                reveal_strlit("Back");
                assert("Wrist"@.len() != "Back"@.len() || "Wrist"@[0] != "Back"@[0]);
            }
        },
        Slot::Wrist2 => {
            assert("Wrist"@ != "Head"@) by {
                reveal_strlit("Wrist");
                reveal_strlit("Head");
                assert("Wrist"@.len() != "Head"@.len() || "Wrist"@[0] != "Head"@[0]);
            }
            assert("Wrist"@ != "Chest"@) by {
                reveal_strlit("Wrist");
                reveal_strlit("Chest");
                assert("Wrist"@.len() != "Chest"@.len() || "Wrist"@[0] != "Chest"@[0]);
            }
            assert("Wrist"@ != "Legs"@) by {
                reveal_strlit("Wrist");
                reveal_strlit("Legs");
                assert("Wrist"@.len() != "Legs"@.len() || "Wrist"@[0] != "Legs"@[0]);
            }
            assert("Wrist"@ != "Hands"@) by {
                reveal_strlit("Wrist");
                reveal_strlit("Hands");
                assert("Wrist"@.len() != "Hands"@.len() || "Wrist"@[0] != "Hands"@[0]);
            }
            assert("Wrist"@ != "Feet"@) by {
                reveal_strlit("Wrist");
                reveal_strlit("Feet");
                assert("Wrist"@.len() != "Feet"@.len() || "Wrist"@[0] != "Feet"@[0]);
            }
            assert("Wrist"@ != "Shoulders"@) by {
                reveal_strlit("Wrist");
                reveal_strlit("Shoulders");
                assert("Wrist"@.len() != "Shoulders"@.len() || "Wrist"@[0] != "Shoulders"@[0]);
            }
            assert("Wrist"@ != "Back"@) by {
                reveal_strlit("Wrist");
                reveal_strlit("Back");
                assert("Wrist"@.len() != "Back"@.len() || "Wrist"@[0] != "Back"@[0]);
            }
        },
        Slot::Neck => {
            assert("Neck"@ != "Head"@) by {
                reveal_strlit("Neck");
                reveal_strlit("Head");
                assert("Neck"@.len() != "Head"@.len() || "Neck"@[0] != "Head"@[0]);
            }
            assert("Neck"@ != "Chest"@) by {
                reveal_strlit("Neck");
                reveal_strlit("Chest");
                assert("Neck"@.len() != "Chest"@.len() || "Neck"@[0] != "Chest"@[0]);
            }
            assert("Neck"@ != "Legs"@) by {
                reveal_strlit("Neck");
                reveal_strlit("Legs");
                assert("Neck"@.len() != "Legs"@.len() || "Neck"@[0] != "Legs"@[0]);
            }
            assert("Neck"@ != "Hands"@) by {
                reveal_strlit("Neck");
                reveal_strlit("Hands");
                assert("Neck"@.len() != "Hands"@.len() || "Neck"@[0] != "Hands"@[0]);
            }
            assert("Neck"@ != "Feet"@) by {
                reveal_strlit("Neck");
                reveal_strlit("Feet");
                assert("Neck"@.len() != "Feet"@.len() || "Neck"@[0] != "Feet"@[0]);
            }
            assert("Neck"@ != "Shoulders"@) by {
                reveal_strlit("Neck");
                reveal_strlit("Shoulders");
                assert("Neck"@.len() != "Shoulders"@.len() || "Neck"@[0] != "Shoulders"@[0]);
            }
            assert("Neck"@ != "Back"@) by {
                reveal_strlit("Neck");
                reveal_strlit("Back");
                assert("Neck"@.len() != "Back"@.len() || "Neck"@[0] != "Back"@[0]);
            }
            assert("Neck"@ != "Wrist"@) by {
                reveal_strlit("Neck");
                reveal_strlit("Wrist");
                assert("Neck"@.len() != "Wrist"@.len() || "Neck"@[0] != "Wrist"@[0]);
            }
        },
        Slot::Finger1 => {
            assert("Finger"@ != "Head"@) by {
                reveal_strlit("Finger");
                reveal_strlit("Head");
                assert("Finger"@.len() != "Head"@.len() || "Finger"@[0] != "Head"@[0]);
            }
            assert("Finger"@ != "Chest"@) by {
                reveal_strlit("Finger");
                reveal_strlit("Chest");
                assert("Finger"@.len() != "Chest"@.len() || "Finger"@[0] != "Chest"@[0]);
            }
            assert("Finger"@ != "Legs"@) by {
                reveal_strlit("Finger");
                reveal_strlit("Legs");
                assert("Finger"@.len() != "Legs"@.len() || "Finger"@[0] != "Legs"@[0]);
            }
            assert("Finger"@ != "Hands"@) by {
                reveal_strlit("Finger");
                reveal_strlit("Hands");
                assert("Finger"@.len() != "Hands"@.len() || "Finger"@[0] != "Hands"@[0]);
            }
            assert("Finger"@ != "Feet"@) by {
                reveal_strlit("Finger");
                reveal_strlit("Feet");
                assert("Finger"@.len() != "Feet"@.len() || "Finger"@[0] != "Feet"@[0]);
            }
            assert("Finger"@ != "Shoulders"@) by {
                reveal_strlit("Finger");
                reveal_strlit("Shoulders");
                assert("Finger"@.len() != "Shoulders"@.len() || "Finger"@[0] != "Shoulders"@[0]);
            }
            assert("Finger"@ != "Back"@) by {
                reveal_strlit("Finger");
                reveal_strlit("Back");
                assert("Finger"@.len() != "Back"@.len() || "Finger"@[0] != "Back"@[0]);
            }
            assert("Finger"@ != "Wrist"@) by {
                reveal_strlit("Finger");
                reveal_strlit("Wrist");
                assert("Finger"@.len() != "Wrist"@.len() || "Finger"@[0] != "Wrist"@[0]);
            }
            assert("Finger"@ != "Neck"@) by {
                reveal_strlit("Finger");
                reveal_strlit("Neck");
                assert("Finger"@.len() != "Neck"@.len() || "Finger"@[0] != "Neck"@[0]);
            }
        },
        Slot::Finger2 => {
            assert("Finger"@ != "Head"@) by {
                reveal_strlit("Finger");
                reveal_strlit("Head");
                assert("Finger"@.len() != "Head"@.len() || "Finger"@[0] != "Head"@[0]);
            }
            assert("Finger"@ != "Chest"@) by {
                reveal_strlit("Finger");
                reveal_strlit("Chest");
                assert("Finger"@.len() != "Chest"@.len() || "Finger"@[0] != "Chest"@[0]);
            }
            assert("Finger"@ != "Legs"@) by {
                reveal_strlit("Finger");
                reveal_strlit("Legs");
                assert("Finger"@.len() != "Legs"@.len() || "Finger"@[0] != "Legs"@[0]);
            }
            assert("Finger"@ != "Hands"@) by {
                reveal_strlit("Finger");
                reveal_strlit("Hands");
                assert("Finger"@.len() != "Hands"@.len() || "Finger"@[0] != "Hands"@[0]);
            }
            assert("Finger"@ != "Feet"@) by {
                reveal_strlit("Finger");
                reveal_strlit("Feet");
                assert("Finger"@.len() != "Feet"@.len() || "Finger"@[0] != "Feet"@[0]);
            }
            assert("Finger"@ != "Shoulders"@) by {
                reveal_strlit("Finger");
                reveal_strlit("Shoulders");
                assert("Finger"@.len() != "Shoulders"@.len() || "Finger"@[0] != "Shoulders"@[0]);
            }
            assert("Finger"@ != "Back"@) by {
                reveal_strlit("Finger");
                reveal_strlit("Back");
                assert("Finger"@.len() != "Back"@.len() || "Finger"@[0] != "Back"@[0]);
            }
            assert("Finger"@ != "Wrist"@) by {
                reveal_strlit("Finger");
                reveal_strlit("Wrist");
                assert("Finger"@.len() != "Wrist"@.len() || "Finger"@[0] != "Wrist"@[0]);
            }
            assert("Finger"@ != "Neck"@) by {
                reveal_strlit("Finger");
                reveal_strlit("Neck");
                assert("Finger"@.len() != "Neck"@.len() || "Finger"@[0] != "Neck"@[0]);
            }
        },
        Slot::Ear1 => {
            assert("Ear"@ != "Head"@) by {
                reveal_strlit("Ear");
                reveal_strlit("Head");
                assert("Ear"@.len() != "Head"@.len() || "Ear"@[0] != "Head"@[0]);
            }
            assert("Ear"@ != "Chest"@) by {
                reveal_strlit("Ear");
                reveal_strlit("Chest");
                assert("Ear"@.len() != "Chest"@.len() || "Ear"@[0] != "Chest"@[0]);
            }
            assert("Ear"@ != "Legs"@) by {
                reveal_strlit("Ear");
                reveal_strlit("Legs");
                assert("Ear"@.len() != "Legs"@.len() || "Ear"@[0] != "Legs"@[0]);
            }
            assert("Ear"@ != "Hands"@) by {
                reveal_strlit("Ear");
                reveal_strlit("Hands");
                assert("Ear"@.len() != "Hands"@.len() || "Ear"@[0] != "Hands"@[0]);
            }
            assert("Ear"@ != "Feet"@) by {
                reveal_strlit("Ear");
                reveal_strlit("Feet");
                assert("Ear"@.len() != "Feet"@.len() || "Ear"@[0] != "Feet"@[0]);
            }
            assert("Ear"@ != "Shoulders"@) by {
                reveal_strlit("Ear");
                reveal_strlit("Shoulders");
                assert("Ear"@.len() != "Shoulders"@.len() || "Ear"@[0] != "Shoulders"@[0]);
            }
            assert("Ear"@ != "Back"@) by {
                reveal_strlit("Ear");
                reveal_strlit("Back");
                assert("Ear"@.len() != "Back"@.len() || "Ear"@[0] != "Back"@[0]);
            }
            assert("Ear"@ != "Wrist"@) by {
                reveal_strlit("Ear");
                reveal_strlit("Wrist");
                assert("Ear"@.len() != "Wrist"@.len() || "Ear"@[0] != "Wrist"@[0]);
            }
            assert("Ear"@ != "Neck"@) by {
                reveal_strlit("Ear");
                reveal_strlit("Neck");
                assert("Ear"@.len() != "Neck"@.len() || "Ear"@[0] != "Neck"@[0]);
            }
            assert("Ear"@ != "Finger"@) by {
                reveal_strlit("Ear");
                reveal_strlit("Finger");
                assert("Ear"@.len() != "Finger"@.len() || "Ear"@[0] != "Finger"@[0]);
            }
        },
        Slot::Ear2 => {
            assert("Ear"@ != "Head"@) by {
                reveal_strlit("Ear");
                reveal_strlit("Head");
                assert("Ear"@.len() != "Head"@.len() || "Ear"@[0] != "Head"@[0]);
            }
            assert("Ear"@ != "Chest"@) by {
                reveal_strlit("Ear");
                reveal_strlit("Chest");
                assert("Ear"@.len() != "Chest"@.len() || "Ear"@[0] != "Chest"@[0]);
            }
            assert("Ear"@ != "Legs"@) by {
                reveal_strlit("Ear");
                reveal_strlit("Legs");
                assert("Ear"@.len() != "Legs"@.len() || "Ear"@[0] != "Legs"@[0]);
            }
            assert("Ear"@ != "Hands"@) by {
                reveal_strlit("Ear");
                reveal_strlit("Hands");
                assert("Ear"@.len() != "Hands"@.len() || "Ear"@[0] != "Hands"@[0]);
            }
            assert("Ear"@ != "Feet"@) by {
                reveal_strlit("Ear");
                reveal_strlit("Feet");
                assert("Ear"@.len() != "Feet"@.len() || "Ear"@[0] != "Feet"@[0]);
            }
            assert("Ear"@ != "Shoulders"@) by {
                reveal_strlit("Ear");
                reveal_strlit("Shoulders");
                assert("Ear"@.len() != "Shoulders"@.len() || "Ear"@[0] != "Shoulders"@[0]);
            }
            assert("Ear"@ != "Back"@) by {
                reveal_strlit("Ear");
                reveal_strlit("Back");
                assert("Ear"@.len() != "Back"@.len() || "Ear"@[0] != "Back"@[0]);
            }
            assert("Ear"@ != "Wrist"@) by {
                reveal_strlit("Ear");
                reveal_strlit("Wrist");
                assert("Ear"@.len() != "Wrist"@.len() || "Ear"@[0] != "Wrist"@[0]);
            }
            assert("Ear"@ != "Neck"@) by {
                reveal_strlit("Ear");
                reveal_strlit("Neck");
                assert("Ear"@.len() != "Neck"@.len() || "Ear"@[0] != "Neck"@[0]);
            }
            assert("Ear"@ != "Finger"@) by {
                reveal_strlit("Ear");
                reveal_strlit("Finger");
                assert("Ear"@.len() != "Finger"@.len() || "Ear"@[0] != "Finger"@[0]);
            }
        },
        Slot::Pocket => {
            assert("Pocket"@ != "Head"@) by {
                reveal_strlit("Pocket");
                reveal_strlit("Head");
                assert("Pocket"@.len() != "Head"@.len() || "Pocket"@[0] != "Head"@[0]);
            }
            assert("Pocket"@ != "Chest"@) by {
                reveal_strlit("Pocket");
                reveal_strlit("Chest");
                assert("Pocket"@.len() != "Chest"@.len() || "Pocket"@[0] != "Chest"@[0]);
            }
            assert("Pocket"@ != "Legs"@) by {
                reveal_strlit("Pocket");
                reveal_strlit("Legs");
                assert("Pocket"@.len() != "Legs"@.len() || "Pocket"@[0] != "Legs"@[0]);
            }
            assert("Pocket"@ != "Hands"@) by {
                reveal_strlit("Pocket");
                reveal_strlit("Hands");
                assert("Pocket"@.len() != "Hands"@.len() || "Pocket"@[0] != "Hands"@[0]);
            }
            assert("Pocket"@ != "Feet"@) by {
                reveal_strlit("Pocket");
                reveal_strlit("Feet");
                assert("Pocket"@.len() != "Feet"@.len() || "Pocket"@[0] != "Feet"@[0]);
            }
            assert("Pocket"@ != "Shoulders"@) by {
                reveal_strlit("Pocket");
                reveal_strlit("Shoulders");
                assert("Pocket"@.len() != "Shoulders"@.len() || "Pocket"@[0] != "Shoulders"@[0]);
            }
            assert("Pocket"@ != "Back"@) by {
                reveal_strlit("Pocket");
                reveal_strlit("Back");
                assert("Pocket"@.len() != "Back"@.len() || "Pocket"@[0] != "Back"@[0]);
            }
            assert("Pocket"@ != "Wrist"@) by {
                reveal_strlit("Pocket");
                reveal_strlit("Wrist");
                assert("Pocket"@.len() != "Wrist"@.len() || "Pocket"@[0] != "Wrist"@[0]);
            }
            assert("Pocket"@ != "Neck"@) by {
                reveal_strlit("Pocket");
                reveal_strlit("Neck");
                assert("Pocket"@.len() != "Neck"@.len() || "Pocket"@[0] != "Neck"@[0]);
            }
            assert("Pocket"@ != "Finger"@) by {
                reveal_strlit("Pocket");
                reveal_strlit("Finger");
                assert("Pocket"@.len() != "Finger"@.len() || "Pocket"@[0] != "Finger"@[0]);
            }
            assert("Pocket"@ != "Ear"@) by {
                reveal_strlit("Pocket");
                reveal_strlit("Ear");
                assert("Pocket"@.len() != "Ear"@.len() || "Pocket"@[0] != "Ear"@[0]);
            }
        },
        Slot::MainHand => {
            assert("Main-hand"@ != "Head"@) by {
                reveal_strlit("Main-hand");
                reveal_strlit("Head");
                assert("Main-hand"@.len() != "Head"@.len() || "Main-hand"@[0] != "Head"@[0]);
            }
            assert("Main-hand"@ != "Chest"@) by {
                reveal_strlit("Main-hand");
                reveal_strlit("Chest");
                assert("Main-hand"@.len() != "Chest"@.len() || "Main-hand"@[0] != "Chest"@[0]);
            }
            assert("Main-hand"@ != "Legs"@) by {
                reveal_strlit("Main-hand");
                reveal_strlit("Legs");
                assert("Main-hand"@.len() != "Legs"@.len() || "Main-hand"@[0] != "Legs"@[0]);
            }
            assert("Main-hand"@ != "Hands"@) by {
                reveal_strlit("Main-hand");
                reveal_strlit("Hands");
                assert("Main-hand"@.len() != "Hands"@.len() || "Main-hand"@[0] != "Hands"@[0]);
            }
            assert("Main-hand"@ != "Feet"@) by {
                reveal_strlit("Main-hand");
                reveal_strlit("Feet");
                assert("Main-hand"@.len() != "Feet"@.len() || "Main-hand"@[0] != "Feet"@[0]);
            }
            assert("Main-hand"@ != "Shoulders"@) by {
                reveal_strlit("Main-hand");
                reveal_strlit("Shoulders");
                assert("Main-hand"@.len() != "Shoulders"@.len() || "Main-hand"@[0] != "Shoulders"@[0]);
            }
            assert("Main-hand"@ != "Back"@) by {
                reveal_strlit("Main-hand");
                reveal_strlit("Back");
                assert("Main-hand"@.len() != "Back"@.len() || "Main-hand"@[0] != "Back"@[0]);
            }
            assert("Main-hand"@ != "Wrist"@) by {
                reveal_strlit("Main-hand");
                reveal_strlit("Wrist");
                assert("Main-hand"@.len() != "Wrist"@.len() || "Main-hand"@[0] != "Wrist"@[0]);
            }
            assert("Main-hand"@ != "Neck"@) by {
                reveal_strlit("Main-hand");
                reveal_strlit("Neck");
                assert("Main-hand"@.len() != "Neck"@.len() || "Main-hand"@[0] != "Neck"@[0]);
            }
            assert("Main-hand"@ != "Finger"@) by {
                reveal_strlit("Main-hand");
                reveal_strlit("Finger");
                assert("Main-hand"@.len() != "Finger"@.len() || "Main-hand"@[0] != "Finger"@[0]);
            }
            assert("Main-hand"@ != "Ear"@) by {
                reveal_strlit("Main-hand");
                reveal_strlit("Ear");
                assert("Main-hand"@.len() != "Ear"@.len() || "Main-hand"@[0] != "Ear"@[0]);
            }
            assert("Main-hand"@ != "Pocket"@) by {
                reveal_strlit("Main-hand");
                reveal_strlit("Pocket");
                assert("Main-hand"@.len() != "Pocket"@.len() || "Main-hand"@[0] != "Pocket"@[0]);
            }
        },
        Slot::OffHand => {
            assert("Off-hand"@ != "Head"@) by {
                reveal_strlit("Off-hand");
                reveal_strlit("Head");
                assert("Off-hand"@.len() != "Head"@.len() || "Off-hand"@[0] != "Head"@[0]);
            }
            assert("Off-hand"@ != "Chest"@) by {
                reveal_strlit("Off-hand");
                reveal_strlit("Chest");
                assert("Off-hand"@.len() != "Chest"@.len() || "Off-hand"@[0] != "Chest"@[0]);
            }
            assert("Off-hand"@ != "Legs"@) by {
                reveal_strlit("Off-hand");
                reveal_strlit("Legs");
                assert("Off-hand"@.len() != "Legs"@.len() || "Off-hand"@[0] != "Legs"@[0]);
            }
            assert("Off-hand"@ != "Hands"@) by {
                reveal_strlit("Off-hand");
                reveal_strlit("Hands");
                assert("Off-hand"@.len() != "Hands"@.len() || "Off-hand"@[0] != "Hands"@[0]);
            }
            assert("Off-hand"@ != "Feet"@) by {
                reveal_strlit("Off-hand");
                reveal_strlit("Feet");
                assert("Off-hand"@.len() != "Feet"@.len() || "Off-hand"@[0] != "Feet"@[0]);
            }
            assert("Off-hand"@ != "Shoulders"@) by {
                reveal_strlit("Off-hand");
                reveal_strlit("Shoulders");
                assert("Off-hand"@.len() != "Shoulders"@.len() || "Off-hand"@[0] != "Shoulders"@[0]);
            }
            assert("Off-hand"@ != "Back"@) by {
                reveal_strlit("Off-hand");
                reveal_strlit("Back");
                assert("Off-hand"@.len() != "Back"@.len() || "Off-hand"@[0] != "Back"@[0]);
            }
            assert("Off-hand"@ != "Wrist"@) by {
                reveal_strlit("Off-hand");
                reveal_strlit("Wrist");
                assert("Off-hand"@.len() != "Wrist"@.len() || "Off-hand"@[0] != "Wrist"@[0]);
            }
            assert("Off-hand"@ != "Neck"@) by {
                reveal_strlit("Off-hand");
                reveal_strlit("Neck");
                assert("Off-hand"@.len() != "Neck"@.len() || "Off-hand"@[0] != "Neck"@[0]);
            }
            assert("Off-hand"@ != "Finger"@) by {
                reveal_strlit("Off-hand");
                reveal_strlit("Finger");
                assert("Off-hand"@.len() != "Finger"@.len() || "Off-hand"@[0] != "Finger"@[0]);
            }
            assert("Off-hand"@ != "Ear"@) by {
                reveal_strlit("Off-hand");
                reveal_strlit("Ear");
                assert("Off-hand"@.len() != "Ear"@.len() || "Off-hand"@[0] != "Ear"@[0]);
            }
            assert("Off-hand"@ != "Pocket"@) by {
                reveal_strlit("Off-hand");
                reveal_strlit("Pocket");
                assert("Off-hand"@.len() != "Pocket"@.len() || "Off-hand"@[0] != "Pocket"@[0]);
            }
            assert("Off-hand"@ != "Main-hand"@) by {
                reveal_strlit("Off-hand");
                reveal_strlit("Main-hand");
                assert("Off-hand"@.len() != "Main-hand"@.len() || "Off-hand"@[0] != "Main-hand"@[0]);
            }
        },
        Slot::Ranged => {
            assert("Ranged"@ != "Head"@) by {
                reveal_strlit("Ranged");
                reveal_strlit("Head");
                assert("Ranged"@.len() != "Head"@.len() || "Ranged"@[0] != "Head"@[0]);
            }
            assert("Ranged"@ != "Chest"@) by {
                reveal_strlit("Ranged");
                reveal_strlit("Chest");
                assert("Ranged"@.len() != "Chest"@.len() || "Ranged"@[0] != "Chest"@[0]);
            }
            assert("Ranged"@ != "Legs"@) by {
                reveal_strlit("Ranged");
                reveal_strlit("Legs");
                assert("Ranged"@.len() != "Legs"@.len() || "Ranged"@[0] != "Legs"@[0]);
            }
            assert("Ranged"@ != "Hands"@) by {
                reveal_strlit("Ranged");
                reveal_strlit("Hands");
                assert("Ranged"@.len() != "Hands"@.len() || "Ranged"@[0] != "Hands"@[0]);
            }
            assert("Ranged"@ != "Feet"@) by {
                reveal_strlit("Ranged");
                reveal_strlit("Feet");
                assert("Ranged"@.len() != "Feet"@.len() || "Ranged"@[0] != "Feet"@[0]);
            }
            assert("Ranged"@ != "Shoulders"@) by {
                reveal_strlit("Ranged");
                reveal_strlit("Shoulders");
                assert("Ranged"@.len() != "Shoulders"@.len() || "Ranged"@[0] != "Shoulders"@[0]);
            }
            assert("Ranged"@ != "Back"@) by {
                reveal_strlit("Ranged");
                reveal_strlit("Back");
                assert("Ranged"@.len() != "Back"@.len() || "Ranged"@[0] != "Back"@[0]);
            }
            assert("Ranged"@ != "Wrist"@) by {
                reveal_strlit("Ranged");
                reveal_strlit("Wrist");
                assert("Ranged"@.len() != "Wrist"@.len() || "Ranged"@[0] != "Wrist"@[0]);
            }
            assert("Ranged"@ != "Neck"@) by {
                reveal_strlit("Ranged");
                reveal_strlit("Neck");
                assert("Ranged"@.len() != "Neck"@.len() || "Ranged"@[0] != "Neck"@[0]);
            }
            assert("Ranged"@ != "Finger"@) by {
                reveal_strlit("Ranged");
                reveal_strlit("Finger");
                assert("Ranged"@.len() != "Finger"@.len() || "Ranged"@[0] != "Finger"@[0]);
            }
            assert("Ranged"@ != "Ear"@) by {
                reveal_strlit("Ranged");
                reveal_strlit("Ear");
                assert("Ranged"@.len() != "Ear"@.len() || "Ranged"@[0] != "Ear"@[0]);
            }
            assert("Ranged"@ != "Pocket"@) by {
                reveal_strlit("Ranged");
                reveal_strlit("Pocket");
                assert("Ranged"@.len() != "Pocket"@.len() || "Ranged"@[0] != "Pocket"@[0]);
            }
            assert("Ranged"@ != "Main-hand"@) by {
                reveal_strlit("Ranged");
                reveal_strlit("Main-hand");
                assert("Ranged"@.len() != "Main-hand"@.len() || "Ranged"@[0] != "Main-hand"@[0]);
            }
            assert("Ranged"@ != "Off-hand"@) by {
                reveal_strlit("Ranged");
                reveal_strlit("Off-hand");
                assert("Ranged"@.len() != "Off-hand"@.len() || "Ranged"@[0] != "Off-hand"@[0]);
            }
        },
        Slot::ClassItem => {
            assert("Class Item"@ != "Head"@) by {
                reveal_strlit("Class Item");
                reveal_strlit("Head");
                assert("Class Item"@.len() != "Head"@.len() || "Class Item"@[0] != "Head"@[0]);
            }
            assert("Class Item"@ != "Chest"@) by {
                reveal_strlit("Class Item");
                reveal_strlit("Chest");
                assert("Class Item"@.len() != "Chest"@.len() || "Class Item"@[0] != "Chest"@[0]);
            }
            assert("Class Item"@ != "Legs"@) by {
                reveal_strlit("Class Item");
                reveal_strlit("Legs");
                assert("Class Item"@.len() != "Legs"@.len() || "Class Item"@[0] != "Legs"@[0]);
            }
            assert("Class Item"@ != "Hands"@) by {
                reveal_strlit("Class Item");
                reveal_strlit("Hands");
                assert("Class Item"@.len() != "Hands"@.len() || "Class Item"@[0] != "Hands"@[0]);
            }
            assert("Class Item"@ != "Feet"@) by {
                reveal_strlit("Class Item");
                reveal_strlit("Feet");
                assert("Class Item"@.len() != "Feet"@.len() || "Class Item"@[0] != "Feet"@[0]);
            }
            assert("Class Item"@ != "Shoulders"@) by {
                reveal_strlit("Class Item");
                reveal_strlit("Shoulders");
                assert("Class Item"@.len() != "Shoulders"@.len() || "Class Item"@[0] != "Shoulders"@[0]);
            }
            assert("Class Item"@ != "Back"@) by {
                reveal_strlit("Class Item");
                reveal_strlit("Back");
                assert("Class Item"@.len() != "Back"@.len() || "Class Item"@[0] != "Back"@[0]);
            }
            assert("Class Item"@ != "Wrist"@) by {
                reveal_strlit("Class Item");
                reveal_strlit("Wrist");
                assert("Class Item"@.len() != "Wrist"@.len() || "Class Item"@[0] != "Wrist"@[0]);
            }
            assert("Class Item"@ != "Neck"@) by {
                reveal_strlit("Class Item");
                reveal_strlit("Neck");
                assert("Class Item"@.len() != "Neck"@.len() || "Class Item"@[0] != "Neck"@[0]);
            }
            assert("Class Item"@ != "Finger"@) by {
                reveal_strlit("Class Item");
                reveal_strlit("Finger");
                assert("Class Item"@.len() != "Finger"@.len() || "Class Item"@[0] != "Finger"@[0]);
            }
            assert("Class Item"@ != "Ear"@) by {
                reveal_strlit("Class Item");
                reveal_strlit("Ear");
                assert("Class Item"@.len() != "Ear"@.len() || "Class Item"@[0] != "Ear"@[0]);
            }
            assert("Class Item"@ != "Pocket"@) by {
                reveal_strlit("Class Item");
                reveal_strlit("Pocket");
                assert("Class Item"@.len() != "Pocket"@.len() || "Class Item"@[0] != "Pocket"@[0]);
            }
            assert("Class Item"@ != "Main-hand"@) by {
                reveal_strlit("Class Item");
                reveal_strlit("Main-hand");
                assert("Class Item"@.len() != "Main-hand"@.len() || "Class Item"@[0] != "Main-hand"@[0]);
            }
            assert("Class Item"@ != "Off-hand"@) by {
                reveal_strlit("Class Item");
                reveal_strlit("Off-hand");
                assert("Class Item"@.len() != "Off-hand"@.len() || "Class Item"@[0] != "Off-hand"@[0]);
            }
            assert("Class Item"@ != "Ranged"@) by {
                reveal_strlit("Class Item");
                reveal_strlit("Ranged");
                assert("Class Item"@.len() != "Ranged"@.len() || "Class Item"@[0] != "Ranged"@[0]);
            }
        },
    }
}

/// A gear set: innate stats plus at most one item per slot.
#[derive(Debug, Clone)]
pub struct GearSet {
    pub innate_stats: StatMap,
    /// The item equipped in each slot, indexed by canonical slot order.
    pub items: [Option<GearItem>; 19],
}

/// The sum of stat `s` over the equipped items `items[0..n]`.
pub open spec fn items_stat_sum(items: Seq<Option<GearItem>>, s: Stat, n: int) -> int
    decreases n,
{
    if n <= 0 {
        0
    } else {
        items_stat_sum(items, s, n - 1) + match items[n - 1] {
            Some(it) => it.stats.value(s) as int,
            None => 0int,
        }
    }
}

impl GearSet {
    /// The item in `slot`, if one is equipped.
    pub open spec fn item_spec(&self, slot: Slot) -> Option<GearItem> {
        self.items@[slot_index_spec(slot)]
    }

    /// Total of stat `s`: innate value plus every equipped item's value.
    pub open spec fn total_spec(&self, s: Stat) -> int {
        self.innate_stats.value(s) + items_stat_sum(self.items@, s, SLOT_COUNT as int)
    }

    /// An empty gear set with the given innate totals.
    pub fn new(innate_stats: StatMap) -> (g: GearSet)
        ensures
            g.innate_stats == innate_stats,
            forall|slot: Slot| #[trigger] g.item_spec(slot) is None,
    {
        let g = GearSet {
            innate_stats,
            items: [None, None, None, None, None, None, None, None, None, None, None, None, None,
                None, None, None, None, None, None],
        };
        assert forall|slot: Slot| #[trigger] g.item_spec(slot) is None by {
            lemma_slot_index();
        }
        g
    }

    /// The item in `slot`, if one is equipped.
    pub fn item(&self, slot: Slot) -> (r: Option<&GearItem>)
        ensures
            r matches Some(it) ==> self.item_spec(slot) == Some(*it),
            r is None ==> self.item_spec(slot) is None,
    {
        let i = slot_index(slot);
        proof {
            vstd::array::lemma_array_index(self.items, i as int);
        }
        match &self.items[i] {
            Some(it) => Some(it),
            None => None,
        }
    }

    /// Equips `item` in `slot`, replacing whatever was there.
    pub fn insert(&mut self, slot: Slot, item: GearItem)
        ensures
            final(self).innate_stats == old(self).innate_stats,
            final(self).item_spec(slot) == Some(item),
            forall|t: Slot| t != slot ==> #[trigger] final(self).item_spec(t) == old(self).item_spec(t),
    {
        let i = slot_index(slot);
        self.items.set(i, Some(item));
        proof {
            lemma_slot_index();
        }
    }

    /// Sum a single stat across innate totals and all equipped items, in
    /// `i128`, where it always fits.
    pub fn total_wide(&self, s: &Stat) -> (t: i128)
        ensures
            t as int == self.total_spec(*s),
    {
        let mut acc: i128 = 0;
        let mut i: usize = 0;
        while i < SLOT_COUNT
            invariant
                i <= SLOT_COUNT,
                acc as int == items_stat_sum(self.items@, *s, i as int),
                -0x1_0000_0000_0000_0000 * (i as int) <= acc <= 0x1_0000_0000_0000_0000 * (i as int),
            decreases SLOT_COUNT - i,
        {
            proof {
                vstd::array::lemma_array_index(self.items, i as int);
            }
            match &self.items[i] {
                Some(it) => {
                    acc = acc + it.stat(s) as i128;
                },
                None => {},
            }
            i += 1;
        }
        self.innate_stats.get(*s) as i128 + acc
    }

    /// Sum a single stat across innate totals and all equipped items.
    pub fn total(&self, s: &Stat) -> (t: i64)
        requires
            i64::MIN <= self.total_spec(*s) <= i64::MAX,
        ensures
            t as int == self.total_spec(*s),
    {
        self.total_wide(s) as i64
    }
}

} // verus!
