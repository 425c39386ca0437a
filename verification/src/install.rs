//! Character folders under the install directory.
//!
//! Every input and output resolves from the install directory: one
//! `<CharacterName>_Gear` folder per character, holding
//! `lgo_<char>_gearStats.toml`, `lgo_<char>_gearReady.toml`,
//! `lgo_<char>_builds.toml` and a `<CharacterName>_Reports` folder. This
//! module holds the naming rules and the choice of character; reading the
//! directory is left to the caller, which hands over names, paths and
//! modification times.
use vstd::prelude::*;

use crate::order::{str_order, string_views};
use crate::build_profiles::{join_spec, join_strings};
use crate::sorting::{ins_sorted, isort, lemma_ins_sorted_at, sort_strings, str_gt};
use crate::text::{ascii_lower, concat3, ends_with, eq_ignore_ascii_case, starts_with, str_eq, substring, to_ascii_lowercase, trim, trim_spec};

verus! {

/// The `<char>` of `lgo_<char><suffix>` (prefix and suffix matched ASCII
/// case-insensitively; `suffix` given lowercase), when `<char>` is not empty.
pub open spec fn embedded_character_spec(name: Seq<char>, suffix: Seq<char>) -> Option<Seq<char>> {
    let lower = ascii_lower(name);
    if lower.len() > 4 + suffix.len() && lower.subrange(0, 4) == "lgo_"@ && lower.subrange(
        lower.len() - suffix.len(),
        lower.len() as int,
    ) == suffix {
        Some(name.subrange(4, name.len() - suffix.len()))
    } else {
        None
    }
}

/// The optional text of an optional string.
pub open spec fn opt_text(o: Option<String>) -> Option<Seq<char>> {
    match o {
        Some(s) => Some(s@),
        None => None,
    }
}

/// Extracts `<char>` from `lgo_<char><suffix>` (suffix given lowercase).
pub fn embedded_character(name: &str, suffix_lower: &str) -> (r: Option<String>)
    ensures
        opt_text(r) == embedded_character_spec(name@, suffix_lower@),
{
    let lower = to_ascii_lowercase(name);
    let n = name.unicode_len();
    let k = suffix_lower.unicode_len();
    proof {
        reveal_strlit("lgo_");
    }
    if n > 4 && n - 4 > k && starts_with(lower.as_str(), "lgo_") && ends_with(lower.as_str(), suffix_lower) {
        Some(substring(name, 4, n - k))
    } else {
        None
    }
}

/// The gear file suffixes, in the order they are tried.
pub open spec fn gear_file_suffixes() -> Seq<Seq<char>> {
    seq!["_gearstats.toml"@, "_gearready.toml"@, "_builds.toml"@]
}

/// `<char>` from any recognised gear file name.
pub open spec fn embedded_character_any_spec(name: Seq<char>) -> Option<Seq<char>> {
    match embedded_character_spec(name, "_gearstats.toml"@) {
        Some(c) => Some(c),
        None => match embedded_character_spec(name, "_gearready.toml"@) {
            Some(c) => Some(c),
            None => embedded_character_spec(name, "_builds.toml"@),
        },
    }
}

/// Extracts `<char>` from any recognised gear file name.
pub fn embedded_character_any(name: &str) -> (r: Option<String>)
    ensures
        opt_text(r) == embedded_character_any_spec(name@),
{
    match embedded_character(name, "_gearstats.toml") {
        Some(c) => Some(c),
        None => match embedded_character(name, "_gearready.toml") {
            Some(c) => Some(c),
            None => embedded_character(name, "_builds.toml"),
        },
    }
}

/// Extracts `<char>` from a loose `lgo_<char>_gearStats.toml` file name.
pub fn stray_gear_stats_character(name: &str) -> (r: Option<String>)
    ensures
        opt_text(r) == embedded_character_spec(name@, "_gearstats.toml"@),
{
    embedded_character(name, "_gearstats.toml")
}

/// The `<character>` of a `<character>_Gear` folder name (suffix matched
/// ASCII case-insensitively), keeping its casing.
pub open spec fn strip_gear_suffix_spec(name: Seq<char>) -> Option<Seq<char>> {
    let lower = ascii_lower(name);
    if lower.len() > 5 && lower.subrange(lower.len() - 5, lower.len() as int) == "_gear"@ {
        Some(name.subrange(0, name.len() - 5))
    } else {
        None
    }
}

/// If `name` is `<character>_Gear`, the `<character>` portion.
pub fn strip_gear_suffix(name: &str) -> (r: Option<String>)
    ensures
        opt_text(r) == strip_gear_suffix_spec(name@),
{
    let lower = to_ascii_lowercase(name);
    let n = name.unicode_len();
    proof {
        reveal_strlit("_gear");
    }
    if n > 5 && ends_with(lower.as_str(), "_gear") {
        Some(substring(name, 0, n - 5))
    } else {
        None
    }
}

/// The folder name of a character's gear: `<character>_Gear`.
pub open spec fn gear_folder_name_spec(character: Seq<char>) -> Seq<char> {
    character + "_Gear"@
}

/// The folder name of a character's reports: `<character>_Reports`.
pub open spec fn reports_folder_name_spec(character: Seq<char>) -> Seq<char> {
    character + "_Reports"@
}

/// `<character>_Gear`.
pub fn gear_folder_name(character: &str) -> (r: String)
    ensures
        r@ == gear_folder_name_spec(character@),
{
    let mut r = character.to_owned();
    r.append("_Gear");
    r
}

/// `<character>_Reports`.
pub fn reports_folder_name(character: &str) -> (r: String)
    ensures
        r@ == reports_folder_name_spec(character@),
{
    let mut r = character.to_owned();
    r.append("_Reports");
    r
}

// ── Paths ────────────────────────────────────────────────────────────────────

/// `base` joined with `part` as `Path::join` does on Unix: an absolute `part`
/// (one starting with `/`) replaces `base`; otherwise a `/` is put between
/// the two unless `base` is empty or already ends with one.
pub open spec fn join_path_spec(base: Seq<char>, part: Seq<char>) -> Seq<char> {
    if part.len() > 0 && part[0] == '/' {
        part
    } else if base.len() == 0 || base.last() == '/' {
        base + part
    } else {
        base + seq!['/'] + part
    }
}

/// `base` joined with `part` (Unix path rules).
pub fn join_path(base: &str, part: &str) -> (r: String)
    ensures
        r@ == join_path_spec(base@, part@),
{
    proof {
        reveal_strlit("/");
    }
    let pn = part.unicode_len();
    if pn > 0 && part.get_char(0) == '/' {
        return part.to_owned();
    }
    let bn = base.unicode_len();
    let mut r = base.to_owned();
    if bn > 0 && base.get_char(bn - 1) != '/' {
        r.append("/");
    }
    r.append(part);
    assert(r@ =~= join_path_spec(base@, part@));
    r
}

/// `<install>/data`.
pub fn data_dir(install: &str) -> (r: String)
    ensures
        r@ == join_path_spec(install@, "data"@),
{
    join_path(install, "data")
}

/// `<install>/data/<file_name>`.
pub fn data_path(install: &str, file_name: &str) -> (r: String)
    ensures
        r@ == join_path_spec(join_path_spec(install@, "data"@), file_name@),
{
    let dir = data_dir(install);
    join_path(dir.as_str(), file_name)
}

/// `<install>/<character>_Gear`.
pub fn gear_dir(install: &str, character: &str) -> (r: String)
    ensures
        r@ == join_path_spec(install@, gear_folder_name_spec(character@)),
{
    let name = gear_folder_name(character);
    join_path(install, name.as_str())
}

/// `<install>/<character>_Gear/<character>_Reports`.
pub fn reports_dir(install: &str, character: &str) -> (r: String)
    ensures
        r@ == join_path_spec(
            join_path_spec(install@, gear_folder_name_spec(character@)),
            reports_folder_name_spec(character@),
        ),
{
    let gear = gear_dir(install, character);
    let name = reports_folder_name(character);
    join_path(gear.as_str(), name.as_str())
}

// ── Folder/file name agreement ───────────────────────────────────────────────

/// Whether some name of `seen` equals `c` ignoring ASCII case.
pub open spec fn seen_ignoring_case(seen: Seq<Seq<char>>, c: Seq<char>) -> bool {
    exists|i: int| 0 <= i < seen.len() && ascii_lower(#[trigger] seen[i]) == ascii_lower(c)
}

/// The characters named by gear files among `names` that differ (ignoring
/// ASCII case) from `character`, each once (its first spelling), in order.
pub open spec fn mismatched_characters(names: Seq<Seq<char>>, character: Seq<char>) -> Seq<Seq<char>>
    decreases names.len(),
{
    if names.len() == 0 {
        Seq::empty()
    } else {
        let rest = mismatched_characters(names.drop_last(), character);
        match embedded_character_any_spec(names.last()) {
            Some(c) => if ascii_lower(c) != ascii_lower(character) && !seen_ignoring_case(rest, c) {
                rest.push(c)
            } else {
                rest
            },
            None => rest,
        }
    }
}

/// The warning for a gear folder holding files named for other characters.
pub open spec fn mismatch_warning_spec(gear_dir: Seq<char>, character: Seq<char>, sorted: Seq<Seq<char>>) -> Seq<char> {
    "WARNING: gear folder "@ + gear_dir + " is for character '"@ + character + "' but contains files named for: "@
        + join_spec(sorted, ", "@) + ". Proceeding with the folder name '"@ + character
        + "'; rename the folder or the files if this is wrong."@
}

fn seen_name(seen: &Vec<String>, c: &str) -> (r: bool)
    ensures
        r == seen_ignoring_case(string_views(seen@), c@),
{
    let mut i: usize = 0;
    while i < seen.len()
        invariant
            i <= seen@.len(),
            forall|j: int| 0 <= j < i ==> ascii_lower(#[trigger] string_views(seen@)[j]) != ascii_lower(c@),
        decreases seen@.len() - i,
    {
        if eq_ignore_ascii_case(seen[i].as_str(), c) {
            assert(string_views(seen@)[i as int] == seen@[i as int]@);
            return true;
        }
        assert(string_views(seen@)[i as int] == seen@[i as int]@);
        i += 1;
    }
    false
}

/// The warning to print when the files of a character's gear folder name
/// other characters, if any do.
pub fn name_mismatch_warning(gear_dir: &str, names: &[String], character: &str) -> (r: Option<String>)
    ensures
        ({
            let m = mismatched_characters(string_views(names@), character@);
            if m.len() == 0 {
                r is None
            } else {
                r matches Some(w) && w@ == mismatch_warning_spec(gear_dir@, character@, isort(m, str_gt()))
            }
        }),
{
    let mut found: Vec<String> = Vec::new();
    let mut k: usize = 0;
    while k < names.len()
        invariant
            k <= names@.len(),
            string_views(found@) == mismatched_characters(string_views(names@.subrange(0, k as int)), character@),
        decreases names@.len() - k,
    {
        let ghost before = string_views(names@.subrange(0, k as int));
        proof {
            let now = string_views(names@.subrange(0, k + 1));
            assert(now.drop_last() =~= before);
            assert(now.last() == names@[k as int]@);
        }
        if let Some(c) = embedded_character_any(names[k].as_str()) {
            if !eq_ignore_ascii_case(c.as_str(), character) && !seen_name(&found, c.as_str()) {
                found.push(c);
                assert(string_views(found@) =~= mismatched_characters(string_views(names@.subrange(0, k + 1)), character@));
            }
        }
        k += 1;
    }
    assert(names@.subrange(0, names@.len() as int) =~= names@);
    if found.len() == 0 {
        return None;
    }
    let sorted = sort_strings(found.as_slice());
    let mut w = "WARNING: gear folder ".to_owned();
    w.append(gear_dir);
    w.append(" is for character '");
    w.append(character);
    w.append("' but contains files named for: ");
    let joined = join_strings(&sorted, ", ");
    w.append(joined.as_str());
    w.append(". Proceeding with the folder name '");
    w.append(character);
    w.append("'; rename the folder or the files if this is wrong.");
    Some(w)
}

// ── Report routing ───────────────────────────────────────────────────────────

/// The error when a gear file names no character.
pub open spec fn no_report_character_message(path_display: Seq<char>) -> Seq<char> {
    "Cannot determine the character for report routing from "@ + path_display
        + ". Add a top-level `character = \"...\"` field or use a canonical `lgo_<character>_gearReady.toml` filename."@
}

/// The character reports of a gear file are routed to: the trimmed
/// `character` field when not empty, else the `<char>` of a canonical
/// `lgo_<char>_gearReady.toml` file name.
pub open spec fn report_character_spec(
    file_name: Option<Seq<char>>,
    path_display: Seq<char>,
    gear_doc_character: Option<Seq<char>>,
) -> Result<Seq<char>, Seq<char>> {
    if gear_doc_character is Some && trim_spec(gear_doc_character.unwrap()).len() > 0 {
        Ok(trim_spec(gear_doc_character.unwrap()))
    } else if file_name is Some && embedded_character_spec(file_name.unwrap(), "_gearready.toml"@) is Some {
        Ok(embedded_character_spec(file_name.unwrap(), "_gearready.toml"@).unwrap())
    } else {
        Err(no_report_character_message(path_display))
    }
}

/// The optional text of an optional `&str`.
pub open spec fn opt_str(o: Option<&str>) -> Option<Seq<char>> {
    match o {
        Some(s) => Some(s@),
        None => None,
    }
}

/// Resolves the character used to route reports for a (possibly
/// out-of-tree) gear TOML: the top-level `character` field first, then the
/// canonical file name. `file_name` is the path's final component and
/// `path_display` how the path is shown.
pub fn resolve_report_character(
    file_name: Option<&str>,
    path_display: &str,
    gear_doc_character: Option<&str>,
) -> (r: Result<String, String>)
    ensures
        match report_character_spec(opt_str(file_name), path_display@, opt_str(gear_doc_character)) {
            Ok(c) => r matches Ok(s) && s@ == c,
            Err(e) => r matches Err(s) && s@ == e,
        },
{
    if let Some(c) = gear_doc_character {
        let t = trim(c);
        if t.unicode_len() > 0 {
            return Ok(t);
        }
    }
    if let Some(name) = file_name {
        if let Some(c) = embedded_character(name, "_gearready.toml") {
            return Ok(c);
        }
    }
    let mut msg = "Cannot determine the character for report routing from ".to_owned();
    msg.append(path_display);
    msg.append(
        ". Add a top-level `character = \"...\"` field or use a canonical `lgo_<character>_gearReady.toml` filename.",
    );
    Err(msg)
}

// ── Folder discovery ─────────────────────────────────────────────────────────

/// A discovered `<character>_Gear` folder directly under the install
/// directory.
#[derive(Debug, Clone)]
pub struct GearFolder {
    /// The `<character>` portion, with the folder's casing preserved.
    pub character: String,
    /// Path of `<install>/<character>_Gear`.
    pub path: String,
}

/// The character selected for a command, plus an optional note to print.
#[derive(Debug, Clone)]
pub struct Selection {
    /// Directory-derived character name.
    pub character: String,
    /// Path of the character's `<character>_Gear` folder.
    pub gear_dir: String,
    /// Message the caller should print (e.g. the auto-selection notice).
    pub note: Option<String>,
}

/// The text of a folder: its character and path.
pub open spec fn folder_view(f: GearFolder) -> (Seq<char>, Seq<char>) {
    (f.character@, f.path@)
}

/// The texts of a list of folders.
pub open spec fn folder_views(s: Seq<GearFolder>) -> Seq<(Seq<char>, Seq<char>)> {
    s.map_values(|f: GearFolder| folder_view(f))
}

/// The gear folders among directory entries `(name, path)`, in entry order.
pub open spec fn folders_from_entries(entries: Seq<(Seq<char>, Seq<char>)>) -> Seq<(Seq<char>, Seq<char>)>
    decreases entries.len(),
{
    if entries.len() == 0 {
        Seq::empty()
    } else {
        let e = entries.last();
        folders_from_entries(entries.drop_last()) + match strip_gear_suffix_spec(e.0) {
            Some(c) => if c.len() > 0 {
                seq![(c, e.1)]
            } else {
                Seq::empty()
            },
            None => Seq::empty(),
        }
    }
}

/// Folder order: by ASCII-lowercased character name.
pub open spec fn folder_gt() -> spec_fn((Seq<char>, Seq<char>), (Seq<char>, Seq<char>)) -> bool {
    |a: (Seq<char>, Seq<char>), b: (Seq<char>, Seq<char>)| str_order(ascii_lower(a.0), ascii_lower(b.0)) > 0
}

/// The texts of directory entries `(name, path)`.
pub open spec fn entry_views(s: Seq<(String, String)>) -> Seq<(Seq<char>, Seq<char>)> {
    s.map_values(|e: (String, String)| (e.0@, e.1@))
}

/// The `<character>_Gear` folders among the install directory's
/// subdirectories `(name, path)`, sorted by character name ignoring ASCII
/// case (stable).
pub fn gear_folders_from_entries(entries: &[(String, String)]) -> (r: Vec<GearFolder>)
    ensures
        folder_views(r@) == isort(folders_from_entries(entry_views(entries@)), folder_gt()),
{
    let ghost ev = entry_views(entries@);
    let mut found: Vec<GearFolder> = Vec::new();
    let mut k: usize = 0;
    while k < entries.len()
        invariant
            k <= entries@.len(),
            ev == entry_views(entries@),
            folder_views(found@) == folders_from_entries(ev.subrange(0, k as int)),
        decreases entries@.len() - k,
    {
        proof {
            let t = ev.subrange(0, k + 1);
            assert(t.drop_last() =~= ev.subrange(0, k as int));
            assert(t.last() == (entries@[k as int].0@, entries@[k as int].1@));
        }
        let ghost before = found@;
        match strip_gear_suffix(entries[k].0.as_str()) {
            Some(c) => {
                if c.unicode_len() > 0 {
                    found.push(GearFolder { character: c, path: entries[k].1.clone() });
                    proof {
                        assert(folder_views(found@) =~= folder_views(before) + seq![(found@[found@.len() - 1].character@, entries@[k as int].1@)]);
                    }
                } else {
                    assert(folder_views(found@) =~= folder_views(before) + Seq::<(Seq<char>, Seq<char>)>::empty());
                }
            },
            None => {
                assert(folder_views(found@) =~= folder_views(before) + Seq::<(Seq<char>, Seq<char>)>::empty());
            },
        }
        k += 1;
    }
    assert(ev.subrange(0, ev.len() as int) =~= ev);
    sort_folders(&found)
}

fn sort_folders(v: &Vec<GearFolder>) -> (r: Vec<GearFolder>)
    ensures
        folder_views(r@) == isort(folder_views(v@), folder_gt()),
{
    let mut r: Vec<GearFolder> = Vec::new();
    let mut i: usize = 0;
    while i < v.len()
        invariant
            i <= v@.len(),
            folder_views(r@) == isort(folder_views(v@.subrange(0, i as int)), folder_gt()),
        decreases v@.len() - i,
    {
        let x = GearFolder { character: v[i].character.clone(), path: v[i].path.clone() };
        let xl = to_ascii_lowercase(x.character.as_str());
        let mut j = r.len();
        let mut scanning = true;
        while scanning && j > 0
            invariant
                j <= r@.len(),
                xl@ == ascii_lower(x.character@),
                forall|k: int| j <= k < r@.len() ==> str_order(ascii_lower(#[trigger] r@[k].character@), xl@) > 0,
                !scanning ==> j > 0 && str_order(ascii_lower(r@[j - 1].character@), xl@) <= 0,
            decreases j + (if scanning { 1int } else { 0int }),
        {
            let rl = to_ascii_lowercase(r[j - 1].character.as_str());
            match crate::order::compare_str(rl.as_str(), xl.as_str()) {
                crate::order::Rel::Greater => {
                    j -= 1;
                },
                _ => {
                    scanning = false;
                },
            }
        }
        proof {
            let sv = folder_views(r@);
            assert forall|k: int| j <= k < sv.len() implies (#[trigger] folder_gt()(sv[k], folder_view(x))) by {
                assert(sv[k] == folder_view(r@[k]));
            }
            if j > 0 {
                assert(sv[j - 1] == folder_view(r@[j - 1]));
            }
            lemma_ins_sorted_at(sv, folder_view(x), folder_gt(), j as int);
            assert(folder_views(v@.subrange(0, i + 1)).drop_last() =~= folder_views(v@.subrange(0, i as int)));
            assert(folder_views(v@.subrange(0, i + 1)).last() == folder_view(x));
        }
        let ghost old_r = r@;
        r.insert(j, x);
        proof {
            assert(folder_views(r@) =~= folder_views(old_r).insert(j as int, folder_view(x)));
        }
        i += 1;
    }
    assert(v@.subrange(0, v@.len() as int) =~= v@);
    r
}

// ── Choosing a character ─────────────────────────────────────────────────────

/// The error when no folder matches the requested character.
pub open spec fn no_matching_folder_message_spec(install: Seq<char>, requested: Seq<char>) -> Seq<char> {
    "No gear folder for character '"@ + requested + "' found in "@ + install + ".\nExpected a folder named '"@
        + requested + "_Gear'. Save the bookmarklet output as lgo_"@ + requested
        + "_gearStats.toml and run 'lgo resolve-slots' to create it."@
}

/// The error when the install directory holds no gear folder.
pub open spec fn zero_folder_message_spec(install: Seq<char>) -> Seq<char> {
    "Install directory:\n"@ + install
        + "\nNo character gear folders found.\nExpected one '<CharacterName>_Gear' folder per character, each containing lgo_<character>_gearReady.toml.\nRun 'lgo resolve-slots' after saving the bookmarklet output (lgo_<character>_gearStats.toml) to create it."@
}

/// The `resolve-slots` error when there is nothing to resolve.
pub open spec fn resolve_slots_zero_message_spec(install: Seq<char>) -> Seq<char> {
    "Install directory:\n"@ + install
        + "\nNo gear folders or loose gearStats files found.\nSave the bookmarklet output as lgo_<character>_gearStats.toml into that directory (or into a '<CharacterName>_Gear' folder), then re-run 'lgo resolve-slots'."@
}

/// The error when no folder matches the requested character.
pub fn no_matching_folder_message(install: &str, requested: &str) -> (r: String)
    ensures
        r@ == no_matching_folder_message_spec(install@, requested@),
{
    let mut m = concat3("No gear folder for character '", requested, "' found in ");
    m.append(install);
    m.append(".\nExpected a folder named '");
    m.append(requested);
    m.append("_Gear'. Save the bookmarklet output as lgo_");
    m.append(requested);
    m.append("_gearStats.toml and run 'lgo resolve-slots' to create it.");
    m
}

/// The error when the install directory holds no gear folder.
pub fn zero_folder_message(install: &str) -> (r: String)
    ensures
        r@ == zero_folder_message_spec(install@),
{
    let mut m = "Install directory:\n".to_owned();
    m.append(install);
    m.append(
        "\nNo character gear folders found.\nExpected one '<CharacterName>_Gear' folder per character, each containing lgo_<character>_gearReady.toml.\nRun 'lgo resolve-slots' after saving the bookmarklet output (lgo_<character>_gearStats.toml) to create it.",
    );
    m
}

/// The `resolve-slots` error when there is nothing to resolve.
pub fn resolve_slots_zero_message(install: &str) -> (r: String)
    ensures
        r@ == resolve_slots_zero_message_spec(install@),
{
    let mut m = "Install directory:\n".to_owned();
    m.append(install);
    m.append(
        "\nNo gear folders or loose gearStats files found.\nSave the bookmarklet output as lgo_<character>_gearStats.toml into that directory (or into a '<CharacterName>_Gear' folder), then re-run 'lgo resolve-slots'.",
    );
    m
}

/// Folder `a` ranks above folder `b` for "most recently updated": a later
/// modification time, a known time over an unknown one, then a later name
/// (ASCII case ignored).
pub open spec fn more_recent(a: (Seq<char>, Option<i128>), b: (Seq<char>, Option<i128>)) -> bool {
    let name_gt = str_order(ascii_lower(a.0), ascii_lower(b.0)) > 0;
    match (a.1, b.1) {
        (Some(x), Some(y)) => x > y || (x == y && name_gt),
        (Some(_), None) => true,
        (None, Some(_)) => false,
        (None, None) => name_gt,
    }
}

/// The position of the most recently updated of the first `n` folders; the
/// later one wins a tie.
pub open spec fn most_recent_upto(c: Seq<(Seq<char>, Option<i128>)>, n: int) -> int
    decreases n,
{
    if n <= 1 {
        0
    } else {
        let b = most_recent_upto(c, n - 1);
        if more_recent(c[b], c[n - 1]) {
            b
        } else {
            n - 1
        }
    }
}

/// Each folder's character with its gear file's modification time.
pub open spec fn recency_views(folders: Seq<GearFolder>, mtimes: Seq<Option<i128>>) -> Seq<(Seq<char>, Option<i128>)> {
    Seq::new(folders.len(), |i: int| (folders[i].character@, mtimes[i]))
}

proof fn lemma_most_recent_range(c: Seq<(Seq<char>, Option<i128>)>, n: int)
    requires
        1 <= n,
    ensures
        0 <= most_recent_upto(c, n) < n,
    decreases n,
{
    if n > 1 {
        lemma_most_recent_range(c, n - 1);
    }
}

/// The position of the most recently updated folder.
fn most_recently_updated(folders: &[GearFolder], mtimes: &[Option<i128>]) -> (r: usize)
    requires
        folders@.len() > 0,
        mtimes@.len() == folders@.len(),
    ensures
        r as int == most_recent_upto(recency_views(folders@, mtimes@), folders@.len() as int),
        r < folders@.len(),
{
    let ghost c = recency_views(folders@, mtimes@);
    let mut best: usize = 0;
    let mut k: usize = 1;
    while k < folders.len()
        invariant
            1 <= k <= folders@.len(),
            mtimes@.len() == folders@.len(),
            c == recency_views(folders@, mtimes@),
            best as int == most_recent_upto(c, k as int),
            best < k,
        decreases folders@.len() - k,
    {
        let bl = to_ascii_lowercase(folders[best].character.as_str());
        let kl = to_ascii_lowercase(folders[k].character.as_str());
        let name_gt = match crate::order::compare_str(bl.as_str(), kl.as_str()) {
            crate::order::Rel::Greater => true,
            _ => false,
        };
        let best_wins = match (mtimes[best], mtimes[k]) {
            (Some(x), Some(y)) => x > y || (x == y && name_gt),
            (Some(_), None) => true,
            (None, Some(_)) => false,
            (None, None) => name_gt,
        };
        assert(c[best as int] == (folders@[best as int].character@, mtimes@[best as int]));
        assert(c[k as int] == (folders@[k as int].character@, mtimes@[k as int]));
        if !best_wins {
            best = k;
        }
        k += 1;
    }
    best
}

/// The note printed when a character is chosen among several.
pub open spec fn auto_selection_note(character: Seq<char>) -> Seq<char> {
    "Using character: "@ + character + " (most recently updated)"@
}

/// `s` selects `folder`, with `note`.
pub open spec fn selects(s: Selection, folder: GearFolder, note: Option<Seq<char>>) -> bool {
    s.character@ == folder.character@ && s.gear_dir@ == folder.path@ && opt_text(s.note) == note
}

/// The choice among one or more folders: the only one, or the most
/// recently updated with a note.
pub open spec fn select_among_spec(folders: Seq<GearFolder>, mtimes: Seq<Option<i128>>, s: Selection) -> bool {
    if folders.len() == 1 {
        selects(s, folders[0], None)
    } else {
        let f = folders[most_recent_upto(recency_views(folders, mtimes), folders.len() as int)];
        selects(s, f, Some(auto_selection_note(f.character@)))
    }
}

fn select_among(folders: &[GearFolder], mtimes: &[Option<i128>]) -> (r: Selection)
    requires
        folders@.len() > 0,
        mtimes@.len() == folders@.len(),
    ensures
        select_among_spec(folders@, mtimes@, r),
{
    if folders.len() == 1 {
        return Selection { character: folders[0].character.clone(), gear_dir: folders[0].path.clone(), note: None };
    }
    let i = most_recently_updated(folders, mtimes);
    let chosen = &folders[i];
    let mut note = "Using character: ".to_owned();
    note.append(chosen.character.as_str());
    note.append(" (most recently updated)");
    Selection { character: chosen.character.clone(), gear_dir: chosen.path.clone(), note: Some(note) }
}

/// The first folder whose character equals `requested` ignoring ASCII case.
pub open spec fn first_match(folders: Seq<GearFolder>, requested: Seq<char>) -> Option<int> {
    if exists|i: int| 0 <= i < folders.len() && ascii_lower(#[trigger] folders[i].character@) == ascii_lower(requested) {
        Some(
            choose|i: int|
                0 <= i < folders.len() && ascii_lower(folders[i].character@) == ascii_lower(requested) && forall|j: int|
                    0 <= j < i ==> ascii_lower(#[trigger] folders[j].character@) != ascii_lower(requested),
        )
    } else {
        None
    }
}

fn find_folder(folders: &[GearFolder], requested: &str) -> (r: Option<usize>)
    ensures
        r matches Some(i) ==> first_match(folders@, requested@) == Some(i as int) && i < folders@.len(),
        r is None ==> first_match(folders@, requested@) is None,
{
    let mut k: usize = 0;
    while k < folders.len()
        invariant
            k <= folders@.len(),
            forall|j: int| 0 <= j < k ==> ascii_lower(#[trigger] folders@[j].character@) != ascii_lower(requested@),
        decreases folders@.len() - k,
    {
        if eq_ignore_ascii_case(folders[k].character.as_str(), requested) {
            let ghost m = first_match(folders@, requested@);
            assert(m == Some(k as int)) by {
                let c = choose|i: int|
                    0 <= i < folders@.len() && ascii_lower(folders@[i].character@) == ascii_lower(requested@) && forall|
                        j: int,
                    | 0 <= j < i ==> ascii_lower(#[trigger] folders@[j].character@) != ascii_lower(requested@);
                if c < k {
                } else if c > k {
                    assert(ascii_lower(folders@[k as int].character@) == ascii_lower(requested@));
                }
            }
            return Some(k);
        }
        k += 1;
    }
    None
}

/// Selects the character for a read-only command (`optimize`, `scrap-gear`,
/// `base-stats`) among the install directory's gear folders: the requested
/// one (ASCII case ignored), else the only folder, else the most recently
/// updated. `mtimes` holds each folder's gear-ready file modification time.
pub fn select_character(
    install: &str,
    folders: &[GearFolder],
    mtimes: &[Option<i128>],
    requested: Option<&str>,
) -> (r: Result<Selection, String>)
    requires
        mtimes@.len() == folders@.len(),
    ensures
        requested matches Some(req) ==> match first_match(folders@, req@) {
            Some(i) => r matches Ok(s) && selects(s, folders@[i], None),
            None => r matches Err(e) && e@ == no_matching_folder_message_spec(install@, req@),
        },
        requested is None && folders@.len() == 0 ==> (r matches Err(e) && e@ == zero_folder_message_spec(install@)),
        requested is None && folders@.len() > 0 ==> (r matches Ok(s) && select_among_spec(folders@, mtimes@, s)),
{
    if let Some(req) = requested {
        return match find_folder(folders, req) {
            Some(i) => Ok(
                Selection { character: folders[i].character.clone(), gear_dir: folders[i].path.clone(), note: None },
            ),
            None => Err(no_matching_folder_message(install, req)),
        };
    }
    if folders.len() == 0 {
        return Err(zero_folder_message(install));
    }
    Ok(select_among(folders, mtimes))
}

/// What `resolve-slots` does with the gear folders.
#[derive(Debug)]
pub enum ResolveSlotsTarget {
    /// Use an existing folder.
    Existing(Selection),
    /// Create `<install>/<character>_Gear` for the requested character.
    Create(String),
}

/// Chooses the `resolve-slots` target after stray files were relocated: the
/// requested character's folder (created when missing), else the only
/// folder, else the most recently updated.
pub fn resolve_slots_target(
    install: &str,
    folders: &[GearFolder],
    mtimes: &[Option<i128>],
    requested: Option<&str>,
) -> (r: Result<ResolveSlotsTarget, String>)
    requires
        mtimes@.len() == folders@.len(),
    ensures
        requested matches Some(req) ==> match first_match(folders@, req@) {
            Some(i) => r matches Ok(ResolveSlotsTarget::Existing(s)) && selects(s, folders@[i], None),
            None => r matches Ok(ResolveSlotsTarget::Create(c)) && c@ == req@,
        },
        requested is None && folders@.len() == 0 ==> (r matches Err(e) && e@ == resolve_slots_zero_message_spec(install@)),
        requested is None && folders@.len() > 0 ==> (r matches Ok(ResolveSlotsTarget::Existing(s)) && select_among_spec(
            folders@,
            mtimes@,
            s,
        )),
{
    if let Some(req) = requested {
        return match find_folder(folders, req) {
            Some(i) => Ok(
                ResolveSlotsTarget::Existing(
                    Selection { character: folders[i].character.clone(), gear_dir: folders[i].path.clone(), note: None },
                ),
            ),
            None => Ok(ResolveSlotsTarget::Create(req.to_owned())),
        };
    }
    if folders.len() == 0 {
        return Err(resolve_slots_zero_message(install));
    }
    Ok(ResolveSlotsTarget::Existing(select_among(folders, mtimes)))
}

} // verus!
