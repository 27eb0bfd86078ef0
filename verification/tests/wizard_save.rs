use winshoweq::offsets::PrimaryOffsets;
use winshoweq::wizard::WizardResults;
use winshoweq::wizard_save::{wizard_summary, wizard_writes};

fn triples(plan: &[winshoweq::wizard_save::IniWrite]) -> Vec<(String, String, String, bool)> {
    plan.iter().map(|w| (w.section.clone(), w.key.clone(), w.value.clone(), w.reported)).collect()
}

fn t(s: &str, k: &str, v: &str, r: bool) -> (String, String, String, bool) {
    (s.to_owned(), k.to_owned(), v.to_owned(), r)
}

#[test]
fn wizard_writes_in_order() {
    let mut results = WizardResults::default();
    results.next = Some(0x40);
    results.name = Some(0x10);
    results.item_name = Some(0x20);
    let mut primary = PrimaryOffsets::default();
    primary.zone_name = 0x14000_1000;
    let secondary = vec![("TypeOffset".to_owned(), 0x125u64), ("LevelOffset".to_owned(), 0)];
    let file_info = vec![
        ("PatchDate".to_owned(), "04/14/2026".to_owned()),
        ("ClientHash".to_owned(), String::new()),
    ];
    let plan = wizard_writes(&results, &primary, &secondary, &file_info, 0);
    assert_eq!(
        triples(&plan),
        vec![
            t("File Info", "PatchDate", "04/14/2026", true),
            t("Port", "Port", "5555", false),
            t("Memory Offsets", "ZoneAddr", "0x140001000", true),
            t("WorldInfo Offsets", "WorldHourOffset", "8", true),
            t("WorldInfo Offsets", "WorldMinuteOffset", "9", true),
            t("WorldInfo Offsets", "WorldDayOffset", "10", true),
            t("WorldInfo Offsets", "WorldMonthOffset", "11", true),
            t("WorldInfo Offsets", "WorldYearOffset", "12", true),
            t("SpawnInfo Offsets", "TypeOffset", "0x125", true),
            t("SpawnInfo Offsets", "NextOffset", "0x40", true),
            t("GroundItem Offsets", "NameOffset", "0x20", true),
        ]
    );
    // A confirmed name adds the name offset; an existing port is kept.
    results.name_confirmed = true;
    let plan = wizard_writes(&results, &primary, &Vec::new(), &Vec::new(), 10000);
    assert_eq!(triples(&plan)[0], t("Port", "Port", "10000", false));
    assert!(triples(&plan).contains(&t("SpawnInfo Offsets", "NameOffset", "0x10", true)));
}

#[test]
fn wizard_summary_lists_written_and_failed() {
    let mut results = WizardResults::default();
    results.next = Some(0x40);
    let file_info = vec![("PatchDate".to_owned(), "04/14/2026".to_owned())];
    let plan = wizard_writes(&results, &PrimaryOffsets::default(), &Vec::new(), &file_info, 0);
    let mut oks = vec![true; plan.len()];
    oks[plan.len() - 1] = false;
    assert_eq!(
        wizard_summary(&plan, &oks),
        "Written (6):\r\n  File Info.PatchDate = 04/14/2026\r\n  WorldInfo.WorldHourOffset = 8\r\n  \
WorldInfo.WorldMinuteOffset = 9\r\n  WorldInfo.WorldDayOffset = 10\r\n  WorldInfo.WorldMonthOffset = 11\r\n  \
WorldInfo.WorldYearOffset = 12\r\nWrite failed (1):\r\n  NextOffset\r\n"
    );
    assert_eq!(wizard_summary(&Vec::new(), &Vec::new()), "Nothing to write (no fields discovered).\r\n");
}
