//! The shape of the base-stat derivation data: for every class, one row per
//! base stat (Might, Agility, Vitality, Will, Fate) mapping tracked stats to
//! numeric coefficients. This module checks that shape; the coefficients
//! themselves are floating point and are applied outside the library.
use vstd::prelude::*;

use crate::json::{json_parsed, json_view, parse_json, JsonValue, JsonView};
use crate::stat::{base_stats, base_stats_spec, normalize_stat_name, parse_stat, stat_key, stat_key_spec, stat_named};
use crate::text::str_eq;
use crate::virtues::is_base_stat;

verus! {

/// File name of the derivation data under the install directory's `data/`.
pub const DEFAULT_DERIVATIONS_FILE: &'static str = "base_stat_derivations.json";

/// Why derivation data was refused.
#[derive(Debug)]
pub enum DerivationError {
    ParseJson { path: String, message: String },
    TopLevelNotObject,
    ClassNotObject { class_name: String },
    MissingClass { class_name: String },
    MissingBaseStat { class_name: String, base_stat: String },
    UnknownStat { stat_name: String },
    NonBaseStatRow { class_name: String, stat_name: String },
    DerivedRowNotObject { class_name: String, base_stat: String },
    CoefficientNotNumber { class_name: String, base_stat: String, derived_stat: String },
}

/// The text-level view of a `DerivationError`.
pub enum DerivationFault {
    ParseJson(Seq<char>, Seq<char>),
    TopLevelNotObject,
    ClassNotObject(Seq<char>),
    MissingClass(Seq<char>),
    MissingBaseStat(Seq<char>, Seq<char>),
    UnknownStat(Seq<char>),
    NonBaseStatRow(Seq<char>, Seq<char>),
    DerivedRowNotObject(Seq<char>, Seq<char>),
    CoefficientNotNumber(Seq<char>, Seq<char>, Seq<char>),
}

/// The view of an error.
pub open spec fn fault_of(e: DerivationError) -> DerivationFault {
    match e {
        DerivationError::ParseJson { path, message } => DerivationFault::ParseJson(path@, message@),
        DerivationError::TopLevelNotObject => DerivationFault::TopLevelNotObject,
        DerivationError::ClassNotObject { class_name } => DerivationFault::ClassNotObject(class_name@),
        DerivationError::MissingClass { class_name } => DerivationFault::MissingClass(class_name@),
        DerivationError::MissingBaseStat { class_name, base_stat } => DerivationFault::MissingBaseStat(
            class_name@,
            base_stat@,
        ),
        DerivationError::UnknownStat { stat_name } => DerivationFault::UnknownStat(stat_name@),
        DerivationError::NonBaseStatRow { class_name, stat_name } => DerivationFault::NonBaseStatRow(
            class_name@,
            stat_name@,
        ),
        DerivationError::DerivedRowNotObject { class_name, base_stat } => DerivationFault::DerivedRowNotObject(
            class_name@,
            base_stat@,
        ),
        DerivationError::CoefficientNotNumber { class_name, base_stat, derived_stat } =>
            DerivationFault::CoefficientNotNumber(class_name@, base_stat@, derived_stat@),
    }
}

/// The text an error is shown as.
pub open spec fn fault_message(f: DerivationFault) -> Seq<char> {
    match f {
        DerivationFault::ParseJson(path, m) => "Cannot parse derivation data '"@ + path + "': "@ + m,
        DerivationFault::TopLevelNotObject => "derivation data top level must be an object"@,
        DerivationFault::ClassNotObject(c) => "derivation data for class '"@ + c + "' must be an object"@,
        DerivationFault::MissingClass(c) => "derivation data missing expected class '"@ + c + "'"@,
        DerivationFault::MissingBaseStat(c, b) => "derivation data for class '"@ + c + "' missing base-stat row '"@ + b
            + "'"@,
        DerivationFault::UnknownStat(n) => "derivation data contains unknown stat '"@ + n + "'"@,
        DerivationFault::NonBaseStatRow(c, n) => "derivation data for class '"@ + c + "' has non-base stat row '"@ + n
            + "'"@,
        DerivationFault::DerivedRowNotObject(c, b) => "derivation row '"@ + c + "."@ + b + "' must be an object"@,
        DerivationFault::CoefficientNotNumber(c, b, d) => "derivation coefficient '"@ + c + "."@ + b + "."@ + d
            + "' must be numeric"@,
    }
}

impl DerivationError {
    /// The text the error is shown as.
    pub fn message(&self) -> (r: String)
        ensures
            r@ == fault_message(fault_of(*self)),
    {
        match self {
            DerivationError::ParseJson { path, message } => {
                let mut w = "Cannot parse derivation data '".to_owned();
                w.append(path.as_str());
                w.append("': ");
                w.append(message.as_str());
                w
            },
            DerivationError::TopLevelNotObject => "derivation data top level must be an object".to_owned(),
            DerivationError::ClassNotObject { class_name } => {
                let mut w = "derivation data for class '".to_owned();
                w.append(class_name.as_str());
                w.append("' must be an object");
                w
            },
            DerivationError::MissingClass { class_name } => {
                let mut w = "derivation data missing expected class '".to_owned();
                w.append(class_name.as_str());
                w.append("'");
                w
            },
            DerivationError::MissingBaseStat { class_name, base_stat } => {
                let mut w = "derivation data for class '".to_owned();
                w.append(class_name.as_str());
                w.append("' missing base-stat row '");
                w.append(base_stat.as_str());
                w.append("'");
                w
            },
            DerivationError::UnknownStat { stat_name } => {
                let mut w = "derivation data contains unknown stat '".to_owned();
                w.append(stat_name.as_str());
                w.append("'");
                w
            },
            DerivationError::NonBaseStatRow { class_name, stat_name } => {
                let mut w = "derivation data for class '".to_owned();
                w.append(class_name.as_str());
                w.append("' has non-base stat row '");
                w.append(stat_name.as_str());
                w.append("'");
                w
            },
            DerivationError::DerivedRowNotObject { class_name, base_stat } => {
                let mut w = "derivation row '".to_owned();
                w.append(class_name.as_str());
                w.append(".");
                w.append(base_stat.as_str());
                w.append("' must be an object");
                w
            },
            DerivationError::CoefficientNotNumber { class_name, base_stat, derived_stat } => {
                let mut w = "derivation coefficient '".to_owned();
                w.append(class_name.as_str());
                w.append(".");
                w.append(base_stat.as_str());
                w.append(".");
                w.append(derived_stat.as_str());
                w.append("' must be numeric");
                w
            },
        }
    }
}

/// The classes the data must describe.
pub open spec fn expected_classes() -> Seq<Seq<char>> {
    seq![
        "Beorning"@,
        "Brawler"@,
        "Burglar"@,
        "Captain"@,
        "Champion"@,
        "Guardian"@,
        "Hunter"@,
        "Lore-master"@,
        "Mariner"@,
        "Minstrel"@,
        "Rune-keeper"@,
        "Warden"@,
    ]
}

fn expected_class_names() -> (v: Vec<&'static str>)
    ensures
        v@.len() == expected_classes().len(),
        forall|i: int| 0 <= i < v@.len() ==> (#[trigger] v@[i])@ == expected_classes()[i],
{
    let v = vec![
        "Beorning",
        "Brawler",
        "Burglar",
        "Captain",
        "Champion",
        "Guardian",
        "Hunter",
        "Lore-master",
        "Mariner",
        "Minstrel",
        "Rune-keeper",
        "Warden",
    ];
    v
}

/// The entries of a JSON object as views.
pub open spec fn entries_view(o: Seq<(String, JsonValue)>) -> Seq<(Seq<char>, JsonView)> {
    Seq::new(o.len(), |i: int| (o[i].0@, json_view(o[i].1)))
}

proof fn lemma_object_view(o: Vec<(String, JsonValue)>)
    ensures
        json_view(JsonValue::Object(o)) == JsonView::Object(entries_view(o@)),
{
    assert(json_view(JsonValue::Object(o))->Object_0 =~= entries_view(o@));
}

/// The value of the first entry at or after `i` whose key is `k`.
pub open spec fn obj_find(o: Seq<(Seq<char>, JsonView)>, k: Seq<char>, i: int) -> Option<JsonView>
    decreases o.len() - i,
{
    if i < 0 || i >= o.len() {
        None
    } else if o[i].0 == k {
        Some(o[i].1)
    } else {
        obj_find(o, k, i + 1)
    }
}

fn find_entry<'a>(o: &'a Vec<(String, JsonValue)>, k: &str) -> (r: Option<&'a JsonValue>)
    ensures
        r matches Some(v) ==> obj_find(entries_view(o@), k@, 0) == Some(json_view(*v)),
        r is None ==> obj_find(entries_view(o@), k@, 0) is None,
{
    let ghost ov = entries_view(o@);
    let mut i: usize = 0;
    while i < o.len()
        invariant
            i <= o@.len(),
            ov == entries_view(o@),
            obj_find(ov, k@, 0) == obj_find(ov, k@, i as int),
        decreases o@.len() - i,
    {
        if str_eq(o[i].0.as_str(), k) {
            return Some(&o[i].1);
        }
        i += 1;
    }
    None
}

/// The first base stat, from the `j`-th, that a class object has no row for.
pub open spec fn missing_base(cname: Seq<char>, c: Seq<(Seq<char>, JsonView)>, j: int) -> Option<DerivationFault>
    decreases 5 - j,
{
    if j < 0 || j >= 5 {
        None
    } else if obj_find(c, stat_key_spec(base_stats_spec()[j]), 0) is None {
        Some(DerivationFault::MissingBaseStat(cname, stat_key_spec(base_stats_spec()[j])))
    } else {
        missing_base(cname, c, j + 1)
    }
}

/// The first fault among the expected classes, from the `i`-th: a class
/// that is missing, not an object, or missing a base-stat row.
pub open spec fn expected_fault(root: Seq<(Seq<char>, JsonView)>, i: int) -> Option<DerivationFault>
    decreases 12 - i,
{
    if i < 0 || i >= 12 {
        None
    } else {
        let name = expected_classes()[i];
        match obj_find(root, name, 0) {
            None => Some(DerivationFault::MissingClass(name)),
            Some(JsonView::Object(c)) => match missing_base(name, c, 0) {
                Some(f) => Some(f),
                None => expected_fault(root, i + 1),
            },
            Some(_) => Some(DerivationFault::ClassNotObject(name)),
        }
    }
}

/// The first fault in a row's coefficients, from the `k`-th: a derived stat
/// name that names no stat, or a coefficient that is not a number.
pub open spec fn coeff_fault(cname: Seq<char>, bname: Seq<char>, row: Seq<(Seq<char>, JsonView)>, k: int) -> Option<
    DerivationFault,
>
    decreases row.len() - k,
{
    if k < 0 || k >= row.len() {
        None
    } else if stat_named(normalize_stat_name(row[k].0)) is None {
        Some(DerivationFault::UnknownStat(row[k].0))
    } else if !(row[k].1 is Number) {
        Some(DerivationFault::CoefficientNotNumber(cname, bname, row[k].0))
    } else {
        coeff_fault(cname, bname, row, k + 1)
    }
}

/// The first fault in a class's rows, from the `j`-th: a row name that
/// names no stat or no base stat, a row that is not an object, or a fault
/// in its coefficients.
pub open spec fn rows_fault(cname: Seq<char>, c: Seq<(Seq<char>, JsonView)>, j: int) -> Option<DerivationFault>
    decreases c.len() - j,
{
    if j < 0 || j >= c.len() {
        None
    } else {
        match stat_named(normalize_stat_name(c[j].0)) {
            None => Some(DerivationFault::UnknownStat(c[j].0)),
            Some(st) => if !base_stats_spec().contains(st) {
                Some(DerivationFault::NonBaseStatRow(cname, c[j].0))
            } else {
                match c[j].1 {
                    JsonView::Object(row) => match coeff_fault(cname, c[j].0, row, 0) {
                        Some(f) => Some(f),
                        None => rows_fault(cname, c, j + 1),
                    },
                    _ => Some(DerivationFault::DerivedRowNotObject(cname, c[j].0)),
                }
            },
        }
    }
}

/// The first fault among all classes, from the `i`-th.
pub open spec fn classes_fault(root: Seq<(Seq<char>, JsonView)>, i: int) -> Option<DerivationFault>
    decreases root.len() - i,
{
    if i < 0 || i >= root.len() {
        None
    } else {
        match root[i].1 {
            JsonView::Object(c) => match rows_fault(root[i].0, c, 0) {
                Some(f) => Some(f),
                None => classes_fault(root, i + 1),
            },
            _ => Some(DerivationFault::ClassNotObject(root[i].0)),
        }
    }
}

/// The first fault of a parsed top-level object: the expected classes are
/// checked first, then every class in key order.
pub open spec fn derivations_fault(root: Seq<(Seq<char>, JsonView)>) -> Option<DerivationFault> {
    match expected_fault(root, 0) {
        Some(f) => Some(f),
        None => classes_fault(root, 0),
    }
}

/// The first fault of derivation data read from `path`.
pub open spec fn derivations_text_fault(src: Seq<char>, path: Seq<char>) -> Option<DerivationFault> {
    match json_parsed(src) {
        Err(m) => Some(DerivationFault::ParseJson(path, m)),
        Ok(JsonView::Object(root)) => derivations_fault(root),
        Ok(_) => Some(DerivationFault::TopLevelNotObject),
    }
}

fn missing_base_exec(cname: &str, c: &Vec<(String, JsonValue)>) -> (r: Option<DerivationError>)
    ensures
        r matches Some(e) ==> missing_base(cname@, entries_view(c@), 0) == Some(fault_of(e)),
        r is None ==> missing_base(cname@, entries_view(c@), 0) is None,
{
    let base = base_stats();
    let ghost cv = entries_view(c@);
    let mut j: usize = 0;
    while j < base.len()
        invariant
            j <= 5,
            base@ == base_stats_spec(),
            cv == entries_view(c@),
            missing_base(cname@, cv, 0) == missing_base(cname@, cv, j as int),
        decreases 5 - j,
    {
        let key = stat_key(base[j]);
        if find_entry(c, key).is_none() {
            return Some(DerivationError::MissingBaseStat { class_name: cname.to_owned(), base_stat: key.to_owned() });
        }
        j += 1;
    }
    None
}

fn expected_exec(root: &Vec<(String, JsonValue)>) -> (r: Option<DerivationError>)
    ensures
        r matches Some(e) ==> expected_fault(entries_view(root@), 0) == Some(fault_of(e)),
        r is None ==> expected_fault(entries_view(root@), 0) is None,
{
    let names = expected_class_names();
    let ghost rv = entries_view(root@);
    let mut i: usize = 0;
    while i < names.len()
        invariant
            i <= 12,
            names@.len() == 12,
            forall|k: int| 0 <= k < names@.len() ==> (#[trigger] names@[k])@ == expected_classes()[k],
            rv == entries_view(root@),
            expected_fault(rv, 0) == expected_fault(rv, i as int),
        decreases 12 - i,
    {
        let name = names[i];
        assert(name@ == expected_classes()[i as int]);
        match find_entry(root, name) {
            None => {
                return Some(DerivationError::MissingClass { class_name: name.to_owned() });
            },
            Some(JsonValue::Object(c)) => {
                proof {
                    lemma_object_view(*c);
                }
                if let Some(e) = missing_base_exec(name, c) {
                    return Some(e);
                }
            },
            Some(_) => {
                return Some(DerivationError::ClassNotObject { class_name: name.to_owned() });
            },
        }
        i += 1;
    }
    None
}

fn coeff_exec(cname: &str, bname: &str, row: &Vec<(String, JsonValue)>) -> (r: Option<DerivationError>)
    ensures
        r matches Some(e) ==> coeff_fault(cname@, bname@, entries_view(row@), 0) == Some(fault_of(e)),
        r is None ==> coeff_fault(cname@, bname@, entries_view(row@), 0) is None,
{
    let ghost rv = entries_view(row@);
    let mut k: usize = 0;
    while k < row.len()
        invariant
            k <= row@.len(),
            rv == entries_view(row@),
            coeff_fault(cname@, bname@, rv, 0) == coeff_fault(cname@, bname@, rv, k as int),
        decreases row@.len() - k,
    {
        let dname = row[k].0.as_str();
        if parse_stat(dname).is_err() {
            return Some(DerivationError::UnknownStat { stat_name: dname.to_owned() });
        }
        match &row[k].1 {
            JsonValue::Number(_) => {},
            _ => {
                return Some(
                    DerivationError::CoefficientNotNumber {
                        class_name: cname.to_owned(),
                        base_stat: bname.to_owned(),
                        derived_stat: dname.to_owned(),
                    },
                );
            },
        }
        k += 1;
    }
    None
}

fn rows_exec(cname: &str, c: &Vec<(String, JsonValue)>) -> (r: Option<DerivationError>)
    ensures
        r matches Some(e) ==> rows_fault(cname@, entries_view(c@), 0) == Some(fault_of(e)),
        r is None ==> rows_fault(cname@, entries_view(c@), 0) is None,
{
    let ghost cv = entries_view(c@);
    let mut j: usize = 0;
    while j < c.len()
        invariant
            j <= c@.len(),
            cv == entries_view(c@),
            rows_fault(cname@, cv, 0) == rows_fault(cname@, cv, j as int),
        decreases c@.len() - j,
    {
        let bname = c[j].0.as_str();
        match parse_stat(bname) {
            Err(_) => {
                return Some(DerivationError::UnknownStat { stat_name: bname.to_owned() });
            },
            Ok(st) => {
                if !is_base_stat(st) {
                    return Some(
                        DerivationError::NonBaseStatRow { class_name: cname.to_owned(), stat_name: bname.to_owned() },
                    );
                }
                match &c[j].1 {
                    JsonValue::Object(row) => {
                        proof {
                            lemma_object_view(*row);
                        }
                        if let Some(e) = coeff_exec(cname, bname, row) {
                            return Some(e);
                        }
                    },
                    _ => {
                        return Some(
                            DerivationError::DerivedRowNotObject {
                                class_name: cname.to_owned(),
                                base_stat: bname.to_owned(),
                            },
                        );
                    },
                }
            },
        }
        j += 1;
    }
    None
}

fn classes_exec(root: &Vec<(String, JsonValue)>) -> (r: Option<DerivationError>)
    ensures
        r matches Some(e) ==> classes_fault(entries_view(root@), 0) == Some(fault_of(e)),
        r is None ==> classes_fault(entries_view(root@), 0) is None,
{
    let ghost rv = entries_view(root@);
    let mut i: usize = 0;
    while i < root.len()
        invariant
            i <= root@.len(),
            rv == entries_view(root@),
            classes_fault(rv, 0) == classes_fault(rv, i as int),
        decreases root@.len() - i,
    {
        let cname = root[i].0.as_str();
        match &root[i].1 {
            JsonValue::Object(c) => {
                proof {
                    lemma_object_view(*c);
                }
                if let Some(e) = rows_exec(cname, c) {
                    return Some(e);
                }
            },
            _ => {
                return Some(DerivationError::ClassNotObject { class_name: cname.to_owned() });
            },
        }
        i += 1;
    }
    None
}

/// Checks the shape of a parsed top-level derivation object: every expected
/// class present as an object with a row for each base stat, then every
/// class's rows naming base stats and holding objects of stat names and
/// numbers. Gives the first fault found, in that order.
pub fn check_derivations(root: &Vec<(String, JsonValue)>) -> (r: Result<(), DerivationError>)
    ensures
        r matches Err(e) ==> derivations_fault(entries_view(root@)) == Some(fault_of(e)),
        r is Ok ==> derivations_fault(entries_view(root@)) is None,
{
    if let Some(e) = expected_exec(root) {
        return Err(e);
    }
    match classes_exec(root) {
        Some(e) => Err(e),
        None => Ok(()),
    }
}

/// Parses derivation data read from `path` and checks its shape.
pub fn check_derivations_text(src: &str, path: &str) -> (r: Result<(), DerivationError>)
    ensures
        r matches Err(e) ==> derivations_text_fault(src@, path@) == Some(fault_of(e)),
        r is Ok ==> derivations_text_fault(src@, path@) is None,
{
    match parse_json(src) {
        Err(m) => Err(DerivationError::ParseJson { path: path.to_owned(), message: m }),
        Ok(JsonValue::Object(root)) => {
            proof {
                lemma_object_view(root);
            }
            check_derivations(&root)
        },
        Ok(_) => Err(DerivationError::TopLevelNotObject),
    }
}

} // verus!
