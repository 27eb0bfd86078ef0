use winshoweq::filters::{FilterCategory, FilterSet};

const SAMPLE_XML: &str = r#"<seqfilters>
  <hunt><item name="Fippy Darkpaw" /></hunt>
  <caution><item name="a gnoll scout" /></caution>
  <danger><item name="Lord Nagafen" /></danger>
  <rare><item name="Lockjaw" /></rare>
</seqfilters>"#;

const LEGACY_XML: &str = r#"<?xml version="1.0" encoding="UTF-8"?>
<!DOCTYPE seqfilters SYSTEM "seqfilters.dtd">
<seqfilters>
  <section name="Hunt">
    <oldfilter><regex>Name:Fippy Darkpaw</regex></oldfilter>
    <oldfilter><regex>Name:a gnoll scout</regex></oldfilter>
  </section>
  <section name="Danger">
    <oldfilter><regex>Name:Lord Nagafen</regex></oldfilter>
  </section>
  <section name="Alert">
    <oldfilter><regex>Name:Lockjaw</regex></oldfilter>
  </section>
  <section name="Filtered">
    <oldfilter><regex>Name:ShouldBeSkipped</regex></oldfilter>
  </section>
</seqfilters>"#;

#[test]
fn classify_loaded_entries() {
    let (set, legacy) = FilterSet::load_text(SAMPLE_XML);
    assert!(!legacy);
    assert_eq!(set.classify("Fippy Darkpaw"), Some(FilterCategory::Hunt));
    assert_eq!(set.classify("a gnoll scout"), Some(FilterCategory::Caution));
    assert_eq!(set.classify("Lord Nagafen"), Some(FilterCategory::Danger));
    assert_eq!(set.classify("Lockjaw"), Some(FilterCategory::Rare));
}

#[test]
fn classify_is_case_insensitive() {
    let (set, _) = FilterSet::load_text(SAMPLE_XML);
    assert_eq!(set.classify("fippy darkpaw"), Some(FilterCategory::Hunt));
    assert_eq!(set.classify("LORD NAGAFEN"), Some(FilterCategory::Danger));
}

#[test]
fn classify_returns_none_for_unknown() {
    let (set, _) = FilterSet::load_text(SAMPLE_XML);
    assert_eq!(set.classify("Xygoz"), None);
}

#[test]
fn save_and_reload_round_trips() {
    let mut set = FilterSet::new();
    set.add(FilterCategory::Danger, "Lord Nagafen");
    set.add(FilterCategory::Hunt, "Fippy Darkpaw");
    set.add(FilterCategory::Caution, "a gnoll");
    set.add(FilterCategory::Rare, "Lockjaw");
    let text = set.to_xml_text();
    let (loaded, legacy) = FilterSet::load_text(&text);
    assert!(!legacy);
    assert_eq!(loaded.classify("Lord Nagafen"), Some(FilterCategory::Danger));
    assert_eq!(loaded.classify("Fippy Darkpaw"), Some(FilterCategory::Hunt));
    assert_eq!(loaded.classify("a gnoll"), Some(FilterCategory::Caution));
    assert_eq!(loaded.classify("Lockjaw"), Some(FilterCategory::Rare));
    assert_eq!(loaded.len(), 4);
}

#[test]
fn legacy_format_loads_correctly() {
    let (set, legacy) = FilterSet::load_text(LEGACY_XML);
    assert!(legacy);
    assert_eq!(set.classify("Fippy Darkpaw"), Some(FilterCategory::Hunt));
    assert_eq!(set.classify("a gnoll scout"), Some(FilterCategory::Hunt));
    assert_eq!(set.classify("Lord Nagafen"), Some(FilterCategory::Danger));
    assert_eq!(set.classify("Lockjaw"), Some(FilterCategory::Rare));
    assert_eq!(set.classify("ShouldBeSkipped"), None);
}

#[test]
fn legacy_format_rewrites_in_current_layout() {
    let (set, legacy) = FilterSet::load_text(LEGACY_XML);
    assert!(legacy);
    let contents = set.to_xml_text();
    assert!(contents.contains("<hunt>"));
    assert!(!contents.contains("<section"));
    let (set2, legacy2) = FilterSet::load_text(&contents);
    assert!(!legacy2);
    assert_eq!(set2.classify("Fippy Darkpaw"), Some(FilterCategory::Hunt));
    assert_eq!(set2.classify("Lord Nagafen"), Some(FilterCategory::Danger));
    assert_eq!(set2.classify("Lockjaw"), Some(FilterCategory::Rare));
}

#[test]
fn save_xml_escapes_special_chars() {
    let mut set = FilterSet::new();
    set.add(FilterCategory::Hunt, "a & b");
    let contents = set.to_xml_text();
    assert!(contents.contains("&amp;"));
    let (loaded, _) = FilterSet::load_text(&contents);
    assert_eq!(loaded.classify("a & b"), Some(FilterCategory::Hunt));
}

#[test]
fn xml_text_exact_layout() {
    let mut set = FilterSet::new();
    set.add(FilterCategory::Hunt, "b");
    set.add(FilterCategory::Hunt, "a");
    set.add(FilterCategory::Rare, "<x>");
    assert_eq!(
        set.to_xml_text(),
        "<?xml version=\"1.0\" encoding=\"UTF-8\"?>\n<!DOCTYPE seqfilters SYSTEM \"seqfilters.dtd\">\n<seqfilters>\n  <hunt>\n    <item name=\"a\" />\n    <item name=\"b\" />\n  </hunt>\n  <rare>\n    <item name=\"&lt;x&gt;\" />\n  </rare>\n</seqfilters>\n"
    );
}

#[test]
fn malformed_document_keeps_what_was_read() {
    let (set, legacy) = FilterSet::load_text("<seqfilters><hunt><item name=\"Orc\"/></hunt><danger></oops>");
    assert!(!legacy);
    assert_eq!(set.classify("an orc"), Some(FilterCategory::Hunt));
}
