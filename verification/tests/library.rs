use makimono::{
    assemble_document, build_settings, generate_content, rebuild_release, section_body,
    split_release, ChangelogError, GenerateContentOptions, Section, SectionContent, SectionOptions,
    Settings,
};

fn strings(names: &[&str]) -> Vec<String> {
    names.iter().map(|s| s.to_string()).collect()
}

fn section(label: &str, header: &str) -> Section {
    Section { label: label.to_string(), header: header.to_string() }
}

#[test]
fn default_settings_values() {
    let s = Settings::default();
    assert_eq!(s.start_header, "### Latest Changes");
    assert_eq!(s.label_header_prefix, "#### ");
    assert_eq!(s.end_regex, "(?m)(^### .*)|(^## .*)");
    let pairs: Vec<(String, String)> =
        s.labels.iter().map(|l| (l.label.clone(), l.header.clone())).collect();
    assert_eq!(pairs.len(), 10);
    assert_eq!(pairs[0], ("breaking".to_string(), "Breaking Changes".to_string()));
    assert_eq!(pairs[3], ("feature".to_string(), "Features".to_string()));
    assert_eq!(pairs[9], ("upgrade".to_string(), "Upgrades".to_string()));
}

#[test]
fn build_settings_without_options_is_default() {
    let s = build_settings(None);
    let d = Settings::default();
    assert_eq!(s.start_header, d.start_header);
    assert_eq!(s.label_header_prefix, d.label_header_prefix);
    assert_eq!(s.end_regex, d.end_regex);
    assert_eq!(s.labels.len(), d.labels.len());
}

#[test]
fn build_settings_applies_overrides() {
    let s = build_settings(Some(GenerateContentOptions {
        start_header: Some("## Unreleased".to_string()),
        label_header_prefix: None,
        labels: Some(vec![SectionOptions { label: "fix".to_string(), header: "Bug fixes".to_string() }]),
        end_regex: Some("(?m)^## ".to_string()),
    }));
    assert_eq!(s.start_header, "## Unreleased");
    assert_eq!(s.label_header_prefix, "#### ");
    assert_eq!(s.end_regex, "(?m)^## ");
    assert_eq!(s.labels.len(), 1);
    assert_eq!(s.labels[0].label, "fix");
    assert_eq!(s.labels[0].header, "Bug fixes");
}

#[test]
fn missing_header_is_reported() {
    let settings = Settings::default();
    let err = generate_content("# Changelog\n\n## 1.0\n", &settings, "* x".to_string(), &[]).unwrap_err();
    match &err {
        ChangelogError::MissingHeader { header } => assert_eq!(header, "### Latest Changes"),
        other => panic!("unexpected error {:?}", other),
    }
    assert_eq!(err.message(), "Content doesn't contain the header: ### Latest Changes");
}

#[test]
fn invalid_end_regex_is_reported() {
    let mut settings = Settings::default();
    settings.end_regex = "(^### ".to_string();
    let err = generate_content("### Latest Changes\n", &settings, "* x".to_string(), &[]).unwrap_err();
    match &err {
        ChangelogError::InvalidPattern { pattern, reason } => {
            assert_eq!(pattern, "(^### ");
            assert!(!reason.is_empty());
            assert_eq!(reason, &regex::Regex::new("(^### ").unwrap_err().to_string());
            assert_eq!(&err.message(), reason);
        }
        other => panic!("unexpected error {:?}", other),
    }
}

#[test]
fn header_with_regex_characters_is_matched_literally() {
    let mut settings = Settings::default();
    settings.start_header = "### Latest (dev) Changes".to_string();
    let result = generate_content(
        "### Latest (dev) Changes\n\n* old\n",
        &settings,
        "* new".to_string(),
        &[],
    )
    .unwrap();
    assert_eq!(result, "### Latest (dev) Changes\n\n* new\n* old\n");
}

#[test]
fn header_is_found_after_leading_text() {
    let settings = Settings::default();
    let result = generate_content(
        "# Changelog\n\nIntro text.\n\n### Latest Changes\n\n* old\n\n## 1.0.0\n\n* first\n",
        &settings,
        "* new".to_string(),
        &strings(&["unknown"]),
    )
    .unwrap();
    assert_eq!(
        result,
        "# Changelog\n\nIntro text.\n\n### Latest Changes\n\n* new\n* old\n\n## 1.0.0\n\n* first\n"
    );
}

#[test]
fn non_ascii_text_is_kept() {
    let settings = Settings::default();
    let result = generate_content(
        "### Latest Changes\n\n#### Features\n\n* Übersetzung für «Änderungen»\n\n### 0.1.0 — café\n",
        &settings,
        "* ünïcödé entry".to_string(),
        &strings(&["feature"]),
    )
    .unwrap();
    assert_eq!(
        result,
        "### Latest Changes\n\n#### Features\n\n* ünïcödé entry\n* Übersetzung für «Änderungen»\n\n### 0.1.0 — café\n"
    );
}

#[test]
fn message_goes_to_first_configured_label_only() {
    let settings = Settings::default();
    let result = generate_content(
        "### Latest Changes\n",
        &settings,
        "* both".to_string(),
        &strings(&["refactor", "bug"]),
    )
    .unwrap();
    assert_eq!(result, "### Latest Changes\n\n#### Fixes\n\n* both\n");
}

#[test]
fn sections_follow_configured_order() {
    let settings = Settings::default();
    let result = generate_content(
        "### Latest Changes\n\n#### Refactors\n\n* r\n\n#### Features\n\n* f\n",
        &settings,
        "* new".to_string(),
        &strings(&["docs"]),
    )
    .unwrap();
    assert_eq!(
        result,
        "### Latest Changes\n\n#### Docs\n\n* new\n\n#### Features\n\n* f\n\n#### Refactors\n\n* r\n"
    );
}

#[test]
fn unknown_headings_stay_with_the_section_above() {
    let settings = Settings::default();
    let result = generate_content(
        "### Latest Changes\n\n* loose\n\n#### Other\n\n* o\n",
        &settings,
        "* new".to_string(),
        &[],
    )
    .unwrap();
    assert_eq!(result, "### Latest Changes\n\n* new\n* loose\n\n#### Other\n\n* o\n");
}

#[test]
fn latest_of_overlapping_headings_wins() {
    let mut settings = Settings::default();
    settings.labels = vec![section("fix", "Fix"), section("fix", "Fixes")];
    let result = generate_content(
        "### Latest Changes\n\n#### Fixes\n\n* x\n",
        &settings,
        "* m".to_string(),
        &strings(&["fix"]),
    )
    .unwrap();
    assert_eq!(
        result,
        "### Latest Changes\n\n#### Fixes\n\n* m\n* x\n\n#### Fixes\n\n* x\n"
    );
}

#[test]
fn split_release_parts() {
    let content = "intro\n### Latest Changes\n\n* a\n\n### 1.0\n\n* b\n";
    let header_end = "intro\n### Latest Changes".len();
    let next = "\n\n* a\n\n".len();
    let (pre, release, post) = split_release(content, header_end, Some(next));
    assert_eq!(pre, "intro\n### Latest Changes");
    assert_eq!(release, "* a");
    assert_eq!(post, "### 1.0\n\n* b");
    let (pre, release, post) = split_release(content, header_end, None);
    assert_eq!(pre, "intro\n### Latest Changes");
    assert_eq!(release, "* a\n\n### 1.0\n\n* b");
    assert_eq!(post, "");
}

#[test]
fn section_body_cuts_at_next_heading() {
    let release = "#### Features\n\n* f\n\n#### Fixes\n\n* x";
    let end = "#### Features".len();
    let next = "\n\n* f\n\n".len();
    assert_eq!(section_body(release, end, Some(next)), "* f");
    assert_eq!(section_body(release, end, None), "* f\n\n#### Fixes\n\n* x");
}

#[test]
fn rebuild_release_places_message() {
    let settings = Settings::default();
    let release = "* loose\n\n#### Features\n\n* f";
    let sections = vec![SectionContent {
        label: "feature".to_string(),
        header: "Features".to_string(),
        content: "* f".to_string(),
        index: "* loose\n\n".len(),
    }];
    assert_eq!(
        rebuild_release(release, &sections, &settings, "* m", &strings(&["feature"])),
        "* loose\n\n#### Features\n\n* m\n* f"
    );
    assert_eq!(
        rebuild_release(release, &sections, &settings, "* m", &[]),
        "* m\n* loose\n\n#### Features\n\n* f"
    );
    assert_eq!(rebuild_release("", &[], &settings, "* m", &[]), "* m");
    assert_eq!(
        rebuild_release("", &[], &settings, "* m", &strings(&["upgrade"])),
        "#### Upgrades\n\n* m"
    );
}

#[test]
fn assemble_document_layout() {
    assert_eq!(assemble_document("# H", "* a", "## 1"), "# H\n\n* a\n\n## 1\n");
    assert_eq!(assemble_document("# H", "* a", ""), "# H\n\n* a\n");
    assert_eq!(assemble_document("# H", "", ""), "# H\n");
    assert_eq!(assemble_document("", " x ", ""), "x\n");
}

#[test]
fn output_ends_with_newline_and_keeps_history() {
    let settings = Settings::default();
    let result = generate_content(
        "### Latest Changes\n\n\n### 2.0\n\n* two\n\n### 1.0\n\n* one",
        &settings,
        "* new".to_string(),
        &[],
    )
    .unwrap();
    assert!(result.ends_with('\n'));
    assert!(result.ends_with("### 2.0\n\n* two\n\n### 1.0\n\n* one\n"));
    assert!(result.starts_with("### Latest Changes\n\n"));
}

#[test]
fn whitespace_only_message_is_trimmed_away_at_the_end() {
    let settings = Settings::default();
    let result = generate_content("### Latest Changes\n", &settings, "  ".to_string(), &[]).unwrap();
    assert_eq!(result, "### Latest Changes\n");
}
