//! Report file naming.
//!
//! Optimize reports are written as `lgo_GearReport_NNN.txt` and `.html`, with
//! `NNN` one past the highest serial already in the reports folder (wrapping
//! after 999); a taken name gets a `-1` .. `-9` suffix. Scrap-gear reports
//! reuse the highest serial as `lgo_ScrapGearReport_NNN.txt`. The caller
//! lists the folder and writes the files.
use vstd::prelude::*;

use crate::text::{decimal_chars, decimal_string, ends_with, is_digit, starts_with, str_eq, string_from_chars, substring, zero_pad, zero_pad_chars};

verus! {

/// The files an optimize run wrote.
#[derive(Debug, Clone)]
pub struct ReportPaths {
    pub text_path: String,
    pub html_path: String,
}

/// The position of the first `-` in `s`, if any.
pub open spec fn first_dash(s: Seq<char>) -> Option<int> {
    if exists|i: int| 0 <= i < s.len() && s[i] == '-' {
        Some(choose|i: int| 0 <= i < s.len() && s[i] == '-' && forall|j: int| 0 <= j < i ==> #[trigger] s[j] != '-')
    } else {
        None
    }
}

/// Three ASCII digits, as a number.
pub open spec fn three_digit_value(s: Seq<char>) -> int {
    (s[0] as int - '0' as int) * 100 + (s[1] as int - '0' as int) * 10 + (s[2] as int - '0' as int)
}

/// The serial of an optimize report file name
/// `lgo_GearReport_NNN[-k].(txt|html)`, `k` in `1..=9`.
pub open spec fn report_serial_spec(name: Seq<char>) -> Option<u16> {
    let is_txt = name.len() >= 4 && name.subrange(name.len() - 4, name.len() as int) == ".txt"@;
    let is_html = name.len() >= 5 && name.subrange(name.len() - 5, name.len() as int) == ".html"@;
    if !is_txt && !is_html {
        None
    } else {
        let stem = if is_txt {
            name.subrange(0, name.len() - 4)
        } else {
            name.subrange(0, name.len() - 5)
        };
        let prefix = "lgo_GearReport_"@;
        if !(stem.len() >= prefix.len() && stem.subrange(0, prefix.len() as int) == prefix) {
            None
        } else {
            let rest = stem.subrange(prefix.len() as int, stem.len() as int);
            let (serial, suffix) = match first_dash(rest) {
                Some(d) => (rest.subrange(0, d), Some(rest.subrange(d + 1, rest.len() as int))),
                None => (rest, None),
            };
            if !(serial.len() == 3 && is_digit(serial[0]) && is_digit(serial[1]) && is_digit(serial[2])) {
                None
            } else if suffix matches Some(sfx) && !(sfx.len() == 1 && '1' <= sfx[0] && sfx[0] <= '9') {
                None
            } else {
                Some(three_digit_value(serial) as u16)
            }
        }
    }
}

fn digit_of(c: char) -> (d: u16)
    requires
        is_digit(c),
    ensures
        d as int == c as int - '0' as int,
{
    if c == '0' { 0 }
    else if c == '1' { 1 }
    else if c == '2' { 2 }
    else if c == '3' { 3 }
    else if c == '4' { 4 }
    else if c == '5' { 5 }
    else if c == '6' { 6 }
    else if c == '7' { 7 }
    else if c == '8' { 8 }
    else { 9 }
}

/// The serial of an optimize report file name, if it is one.
pub fn parse_report_serial(file_name: &str) -> (r: Option<u16>)
    ensures
        r == report_serial_spec(file_name@),
{
    proof {
        reveal_strlit(".txt");
        reveal_strlit(".html");
        reveal_strlit("lgo_GearReport_");
    }
    let n = file_name.unicode_len();
    let is_txt = ends_with(file_name, ".txt");
    let is_html = ends_with(file_name, ".html");
    if !is_txt && !is_html {
        return None;
    }
    let stem = if is_txt {
        substring(file_name, 0, n - 4)
    } else {
        substring(file_name, 0, n - 5)
    };
    if !starts_with(stem.as_str(), "lgo_GearReport_") {
        return None;
    }
    let m = stem.unicode_len();
    let rest = substring(stem.as_str(), 15, m);
    let k = rest.unicode_len();
    let mut d: usize = 0;
    while d < k && rest.get_char(d) != '-'
        invariant
            k == rest@.len(),
            d <= k,
            forall|j: int| 0 <= j < d ==> #[trigger] rest@[j] != '-',
        decreases k - d,
    {
        d += 1;
    }
    let ghost fd = first_dash(rest@);
    proof {
        if d < k {
            let c = choose|i: int| 0 <= i < rest@.len() && rest@[i] == '-' && forall|j: int| 0 <= j < i ==> #[trigger] rest@[j] != '-';
            if c < d {
            } else if c > d {
                assert(rest@[d as int] == '-');
            }
            assert(fd == Some(d as int));
        } else {
            assert(fd is None);
        }
    }
    let serial = substring(rest.as_str(), 0, d);
    if serial.unicode_len() != 3 {
        return None;
    }
    let c0 = serial.get_char(0);
    let c1 = serial.get_char(1);
    let c2 = serial.get_char(2);
    if !('0' <= c0 && c0 <= '9' && '0' <= c1 && c1 <= '9' && '0' <= c2 && c2 <= '9') {
        return None;
    }
    if d < k {
        let suffix = substring(rest.as_str(), d + 1, k);
        if !(suffix.unicode_len() == 1 && '1' <= suffix.get_char(0) && suffix.get_char(0) <= '9') {
            return None;
        }
    }
    Some(digit_of(c0) * 100 + digit_of(c1) * 10 + digit_of(c2))
}

/// The highest report serial among the first `n` names.
pub open spec fn highest_serial_upto(names: Seq<Seq<char>>, n: int) -> Option<u16>
    decreases n,
{
    if n <= 0 {
        None
    } else {
        let prev = highest_serial_upto(names, n - 1);
        match report_serial_spec(names[n - 1]) {
            None => prev,
            Some(s) => match prev {
                None => Some(s),
                Some(p) => Some(if s > p { s } else { p }),
            },
        }
    }
}

/// The texts of a list of file names.
pub open spec fn name_views(names: Seq<String>) -> Seq<Seq<char>> {
    names.map_values(|s: String| s@)
}

/// The highest optimize-report serial among a folder's file names.
pub fn highest_report_serial(names: &[String]) -> (r: Option<u16>)
    ensures
        r == highest_serial_upto(name_views(names@), names@.len() as int),
{
    let ghost nv = name_views(names@);
    let mut highest: Option<u16> = None;
    let mut k: usize = 0;
    while k < names.len()
        invariant
            k <= names@.len(),
            nv == name_views(names@),
            highest == highest_serial_upto(nv, k as int),
        decreases names@.len() - k,
    {
        assert(nv[k as int] == names@[k as int]@);
        match parse_report_serial(names[k].as_str()) {
            None => {},
            Some(s) => {
                highest = match highest {
                    None => Some(s),
                    Some(p) => Some(if s > p { s } else { p }),
                };
            },
        }
        k += 1;
    }
    highest
}

/// The serial of the next optimize report: one past the highest, wrapping to
/// 0 after 999.
pub open spec fn next_serial_spec(highest: Option<u16>) -> u16 {
    match highest {
        Some(s) => if s == 999 {
            0
        } else {
            (s + 1) as u16
        },
        None => 0,
    }
}

/// The serial of the next optimize report.
pub fn next_serial(highest: Option<u16>) -> (r: u16)
    requires
        highest matches Some(s) ==> s <= 999,
    ensures
        r == next_serial_spec(highest),
{
    match highest {
        Some(999) => 0,
        Some(serial) => serial + 1,
        None => 0,
    }
}

/// `prefix` followed by the serial padded to three digits.
pub open spec fn stem_spec(prefix: Seq<char>, serial: u16) -> Seq<char> {
    prefix + zero_pad(decimal_string(serial as nat), 3)
}

fn stem_of(prefix: &str, serial: u16) -> (r: String)
    ensures
        r@ == stem_spec(prefix@, serial),
{
    let digits = zero_pad_chars(decimal_chars(serial as u64), 3);
    let mut r = prefix.to_owned();
    let d = string_from_chars(digits.as_slice());
    r.append(d.as_str());
    r
}

/// Whether `names` holds `name`.
pub open spec fn has_name(names: Seq<Seq<char>>, name: Seq<char>) -> bool {
    exists|i: int| 0 <= i < names.len() && names[i] == name
}

fn contains_name(names: &[String], name: &str) -> (r: bool)
    ensures
        r == has_name(name_views(names@), name@),
{
    let ghost nv = name_views(names@);
    let mut k: usize = 0;
    while k < names.len()
        invariant
            k <= names@.len(),
            nv == name_views(names@),
            forall|j: int| 0 <= j < k ==> #[trigger] nv[j] != name@,
        decreases names@.len() - k,
    {
        assert(nv[k as int] == names@[k as int]@);
        if str_eq(names[k].as_str(), name) {
            return true;
        }
        k += 1;
    }
    false
}

/// The `-k` suffix text.
pub open spec fn suffix_text(k: int) -> Seq<char> {
    "-"@ + decimal_string(k as nat)
}

/// A stem is free when neither its `.txt` nor its `.html` file exists.
pub open spec fn stem_free(names: Seq<Seq<char>>, stem: Seq<char>) -> bool {
    !has_name(names, stem + ".txt"@) && !has_name(names, stem + ".html"@)
}

/// The first free stem among the base stem and its `-1` .. `-9` variants,
/// from variant `k` on (0 is the base stem).
pub open spec fn free_stem_from(names: Seq<Seq<char>>, base: Seq<char>, k: int) -> Option<Seq<char>>
    decreases 10 - k,
{
    if k < 0 || k > 9 {
        None
    } else {
        let stem = if k == 0 {
            base
        } else {
            base + suffix_text(k)
        };
        if stem_free(names, stem) {
            Some(stem)
        } else {
            free_stem_from(names, base, k + 1)
        }
    }
}

fn variant(base: &str, k: u64) -> (r: String)
    requires
        k <= 9,
    ensures
        r@ == (if k == 0 {
            base@
        } else {
            base@ + suffix_text(k as int)
        }),
{
    if k == 0 {
        return base.to_owned();
    }
    let mut r = base.to_owned();
    r.append("-");
    let d = string_from_chars(decimal_chars(k).as_slice());
    r.append(d.as_str());
    r
}

/// The stem of the next optimize report given the folder's file names:
/// `lgo_GearReport_NNN`, or its first free `-k` variant.
pub fn choose_report_stem(names: &[String]) -> (r: Result<String, String>)
    ensures
        ({
            let nv = name_views(names@);
            let highest = highest_serial_upto(nv, nv.len() as int);
            let base = stem_spec("lgo_GearReport_"@, next_serial_spec(highest));
            match free_stem_from(nv, base, 0) {
                Some(stem) => r matches Ok(s) && s@ == stem,
                None => r matches Err(e) && e@ == "all filenames from "@ + base + ".txt/.html through "@ + base
                    + "-9.txt/.html already exist"@,
            }
        }),
{
    let highest = highest_report_serial(names);
    proof {
        lemma_serial_at_most_999(name_views(names@), names@.len() as int);
    }
    let serial = next_serial(highest);
    let base = stem_of("lgo_GearReport_", serial);
    let mut k: u64 = 0;
    while k <= 9
        invariant
            k <= 10,
            base@ == stem_spec("lgo_GearReport_"@, next_serial_spec(highest_serial_upto(name_views(names@), names@.len() as int))),
            free_stem_from(name_views(names@), base@, 0) == free_stem_from(name_views(names@), base@, k as int),
        decreases 10 - k,
    {
        let stem = variant(base.as_str(), k);
        let mut txt = stem.clone();
        txt.append(".txt");
        let mut html = stem.clone();
        html.append(".html");
        let txt_taken = contains_name(names, txt.as_str());
        let html_taken = contains_name(names, html.as_str());
        assert(txt@ == stem@ + ".txt"@);
        assert(html@ == stem@ + ".html"@);
        if !txt_taken && !html_taken {
            assert(stem_free(name_views(names@), stem@));
            assert(free_stem_from(name_views(names@), base@, k as int) == Some(stem@));
            return Ok(stem);
        }
        assert(!stem_free(name_views(names@), stem@));
        k += 1;
    }
    let mut e = "all filenames from ".to_owned();
    e.append(base.as_str());
    e.append(".txt/.html through ");
    e.append(base.as_str());
    e.append("-9.txt/.html already exist");
    Err(e)
}

/// The first free scrap-gear report name among `base.txt` and its `-1` ..
/// `-9` variants, from variant `k` on (0 is the base name).
pub open spec fn free_text_name_from(names: Seq<Seq<char>>, base: Seq<char>, k: int) -> Option<Seq<char>>
    decreases 10 - k,
{
    if k < 0 || k > 9 {
        None
    } else {
        let name = (if k == 0 {
            base
        } else {
            base + suffix_text(k)
        }) + ".txt"@;
        if !has_name(names, name) {
            Some(name)
        } else {
            free_text_name_from(names, base, k + 1)
        }
    }
}

/// The file name of the next scrap-gear report given the folder's file
/// names: `lgo_ScrapGearReport_NNN.txt`, `NNN` the highest optimize-report
/// serial (0 when there is none), or its first free `-k` variant.
pub fn choose_scrap_gear_report_name(names: &[String]) -> (r: Result<String, String>)
    ensures
        ({
            let nv = name_views(names@);
            let serial = match highest_serial_upto(nv, nv.len() as int) {
                Some(s) => s,
                None => 0u16,
            };
            let base = stem_spec("lgo_ScrapGearReport_"@, serial);
            match free_text_name_from(nv, base, 0) {
                Some(name) => r matches Ok(x) && x@ == name,
                None => r matches Err(e) && e@ == "all filenames from "@ + base + ".txt through "@ + base
                    + "-9.txt already exist"@,
            }
        }),
{
    let serial = match highest_report_serial(names) {
        Some(s) => s,
        None => 0,
    };
    assert(name_views(names@).len() == names@.len());
    let base = stem_of("lgo_ScrapGearReport_", serial);
    let mut k: u64 = 0;
    while k <= 9
        invariant
            k <= 10,
            base@ == stem_spec("lgo_ScrapGearReport_"@, serial),
            serial == match highest_serial_upto(name_views(names@), name_views(names@).len() as int) {
                Some(s) => s,
                None => 0u16,
            },
            free_text_name_from(name_views(names@), base@, 0) == free_text_name_from(name_views(names@), base@, k as int),
        decreases 10 - k,
    {
        let v = variant(base.as_str(), k);
        let mut name = v.clone();
        name.append(".txt");
        assert(name@ == v@ + ".txt"@);
        if !contains_name(names, name.as_str()) {
            assert(free_text_name_from(name_views(names@), base@, k as int) == Some(name@));
            return Ok(name);
        }
        k += 1;
    }
    let mut e = "all filenames from ".to_owned();
    e.append(base.as_str());
    e.append(".txt through ");
    e.append(base.as_str());
    e.append("-9.txt already exist");
    Err(e)
}

proof fn lemma_serial_at_most_999(names: Seq<Seq<char>>, n: int)
    ensures
        highest_serial_upto(names, n) matches Some(s) ==> s <= 999,
    decreases n,
{
    if n > 0 {
        lemma_serial_at_most_999(names, n - 1);
        if let Some(s) = report_serial_spec(names[n - 1]) {
            let name = names[n - 1];
            assert(s <= 999) by {
                reveal_strlit(".txt");
            }
        }
    }
}

} // verus!
