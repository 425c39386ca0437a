//! Naming of report files in a character's reports folder.
use lgo::report_files::{choose_report_stem, choose_scrap_gear_report_name, parse_report_serial};

fn names(xs: &[&str]) -> Vec<String> {
    xs.iter().map(|s| s.to_string()).collect()
}

#[test]
fn report_serials_are_read_from_optimize_report_names() {
    assert_eq!(parse_report_serial("lgo_GearReport_007.txt"), Some(7));
    assert_eq!(parse_report_serial("lgo_GearReport_012-3.html"), Some(12));
    assert_eq!(parse_report_serial("lgo_ScrapGearReport_007.txt"), None);
    assert_eq!(parse_report_serial("lgo_GearReport_7.txt"), None);
}

#[test]
fn optimize_report_stem_takes_the_next_serial() {
    assert_eq!(choose_report_stem(&names(&[])).unwrap(), "lgo_GearReport_000");
    assert_eq!(
        choose_report_stem(&names(&["lgo_GearReport_004.txt", "lgo_GearReport_004.html", "notes.txt"])).unwrap(),
        "lgo_GearReport_005"
    );
}

#[test]
fn scrap_gear_report_name_uses_the_highest_serial_and_first_free_variant() {
    assert_eq!(choose_scrap_gear_report_name(&names(&[])).unwrap(), "lgo_ScrapGearReport_000.txt");
    assert_eq!(
        choose_scrap_gear_report_name(&names(&["lgo_GearReport_004.txt", "lgo_GearReport_002.html"])).unwrap(),
        "lgo_ScrapGearReport_004.txt"
    );
    assert_eq!(
        choose_scrap_gear_report_name(&names(&[
            "lgo_GearReport_004.txt",
            "lgo_ScrapGearReport_004.txt",
            "lgo_ScrapGearReport_004-1.txt",
        ]))
        .unwrap(),
        "lgo_ScrapGearReport_004-2.txt"
    );
}

#[test]
fn scrap_gear_report_name_fails_when_every_variant_is_taken() {
    let mut taken = vec!["lgo_ScrapGearReport_000.txt".to_string()];
    for k in 1..=9 {
        taken.push(format!("lgo_ScrapGearReport_000-{}.txt", k));
    }
    assert_eq!(
        choose_scrap_gear_report_name(&taken).unwrap_err(),
        "all filenames from lgo_ScrapGearReport_000.txt through lgo_ScrapGearReport_000-9.txt already exist"
    );
}
