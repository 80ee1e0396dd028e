use makimono::{generate_content, Settings};

fn labels(names: &[&str]) -> Vec<String> {
    names.iter().map(|s| s.to_string()).collect()
}

#[test]
fn generate_content_smoke_test() {
    let settings = Settings::default();
    let result = generate_content(
        "### Latest Changes\n",
        &settings,
        String::from("* New & first PR Feature"),
        &[],
    )
    .unwrap();
    assert_eq!(result, "### Latest Changes\n\n* New & first PR Feature\n");
}

#[test]
fn test_before_release() {
    let content = "### Latest Changes\n\n### 0.1.0\n\n* Old entry\n";
    let settings = Settings::default();
    let result = generate_content(
        content,
        &settings,
        String::from("* New PR Feature by geyerandreas"),
        &[],
    )
    .unwrap();
    assert_eq!(
        result,
        "### Latest Changes\n\n* New PR Feature by geyerandreas\n\n### 0.1.0\n\n* Old entry\n"
    );
}

#[test]
fn test_first_entry() {
    let content = "### Latest Changes\n";
    let settings = Settings::default();
    let result =
        generate_content(content, &settings, String::from("* New & first PR Feature"), &[]).unwrap();
    assert_eq!(result, "### Latest Changes\n\n* New & first PR Feature\n");
}

#[test]
fn test_second_entry() {
    let content = "### Latest Changes\n\n* Some previous change\n";
    let settings = Settings::default();
    let result =
        generate_content(content, &settings, String::from("* New exciting Feature"), &[]).unwrap();
    assert_eq!(
        result,
        "### Latest Changes\n\n* New exciting Feature\n* Some previous change\n"
    );
}

#[test]
fn test_without_a_matching_label() {
    let content = "### Latest Changes\n\n#### Features\n\n* Existing feature.\n";
    let settings = Settings::default();
    let result = generate_content(content, &settings, String::from("* New PR Feature"), &[]).unwrap();
    assert_eq!(
        result,
        "### Latest Changes\n\n* New PR Feature\n\n#### Features\n\n* Existing feature.\n"
    );
}

#[test]
fn test_with_matching_label() {
    let content = "### Latest Changes\n\n#### Features\n\n* Existing feature.\n";
    let settings = Settings::default();
    let result = generate_content(
        content,
        &settings,
        String::from("* New PR Feature."),
        &labels(&["feature"]),
    )
    .unwrap();
    assert_eq!(
        result,
        "### Latest Changes\n\n#### Features\n\n* New PR Feature.\n* Existing feature.\n"
    );
}

#[test]
fn test_multiple_sections_with_matching_label() {
    let content = "### Latest Changes\n\n#### Features\n\n* Existing feature.\n\n#### Refactors\n\n* Existing refactor.\n";
    let settings = Settings::default();
    let result = generate_content(
        content,
        &settings,
        String::from("* New feature."),
        &labels(&["feature"]),
    )
    .unwrap();
    assert_eq!(
        result,
        "### Latest Changes\n\n#### Features\n\n* New feature.\n* Existing feature.\n\n#### Refactors\n\n* Existing refactor.\n"
    );
}

#[test]
fn test_sectionless_content_with_matching_label() {
    let content = "### Latest Changes\n\n* Some sectionless entry.\n\n#### Features\n\n* Existing feature.\n";
    let settings = Settings::default();
    let result = generate_content(
        content,
        &settings,
        String::from("* New feature."),
        &labels(&["feature"]),
    )
    .unwrap();
    assert_eq!(
        result,
        "### Latest Changes\n\n* Some sectionless entry.\n\n#### Features\n\n* New feature.\n* Existing feature.\n"
    );
}

#[test]
fn test_multiple_matching_labels() {
    let content = "### Latest Changes\n\n#### Features\n\n* Existing feature.\n\n#### Refactors\n\n* Existing refactor.\n";
    let settings = Settings::default();
    let result = generate_content(
        content,
        &settings,
        String::from("* New item."),
        &labels(&["feature", "refactor"]),
    )
    .unwrap();
    assert_eq!(
        result,
        "### Latest Changes\n\n#### Features\n\n* New item.\n* Existing feature.\n\n#### Refactors\n\n* Existing refactor.\n"
    );
}

#[test]
fn test_content_preservation_across_releases() {
    let content = "### Latest Changes\n\n#### Features\n\n* New in dev.\n\n### 0.2.0\n\n* Old release content.\n";
    let settings = Settings::default();
    let result = generate_content(
        content,
        &settings,
        String::from("* Another new feature."),
        &labels(&["feature"]),
    )
    .unwrap();
    assert_eq!(
        result,
        "### Latest Changes\n\n#### Features\n\n* Another new feature.\n* New in dev.\n\n### 0.2.0\n\n* Old release content.\n"
    );
}

#[test]
fn test_first_sectionless_entry_after_release() {
    let content = "### Latest Changes\n\n### 0.2.0\n\n* Old release content.\n";
    let settings = Settings::default();
    let result =
        generate_content(content, &settings, String::from("* New special feature."), &[]).unwrap();
    assert_eq!(
        result,
        "### Latest Changes\n\n* New special feature.\n\n### 0.2.0\n\n* Old release content.\n"
    );
}

#[test]
fn test_empty_section_header_with_matching_label() {
    let content = "### Latest Changes\n\n#### Features\n\n#### Refactors\n\n* Existing refactor.\n";
    let settings = Settings::default();
    let result = generate_content(
        content,
        &settings,
        String::from("* New feature."),
        &labels(&["feature"]),
    )
    .unwrap();
    assert_eq!(
        result,
        "### Latest Changes\n\n#### Features\n\n* New feature.\n\n#### Refactors\n\n* Existing refactor.\n"
    );
}

#[test]
fn test_no_matching_labels_with_multiple_sections() {
    let content = "### Latest Changes\n\n#### Features\n\n* Existing feature.\n\n#### Refactors\n\n* Existing refactor.\n";
    let settings = Settings::default();
    let result = generate_content(content, &settings, String::from("* Untagged item."), &[]).unwrap();
    assert_eq!(
        result,
        "### Latest Changes\n\n* Untagged item.\n\n#### Features\n\n* Existing feature.\n\n#### Refactors\n\n* Existing refactor.\n"
    );
}
