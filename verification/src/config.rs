//! How new changelog entries are placed: the known labels and the markdown markers.

use vstd::prelude::*;
use vstd::string::*;

verus! {

/// A configurable changelog section mapped from a label to a human-readable header.
#[derive(Debug, Clone)]
pub struct Section {
    /// The machine-friendly label used for matching (for example `feature`).
    pub label: String,
    /// The changelog heading shown in markdown (for example `Features`).
    pub header: String,
}

/// What a `Section` holds.
pub struct LabelHeading {
    pub label: Seq<char>,
    pub header: Seq<char>,
}

impl View for Section {
    type V = LabelHeading;

    open spec fn view(&self) -> LabelHeading {
        LabelHeading { label: self.label@, header: self.header@ }
    }
}

/// Settings that control how new changelog entries are inserted into a markdown file.
#[derive(Debug, Clone)]
pub struct Settings {
    /// The header that marks the start of the editable unreleased section.
    pub start_header: String,
    /// Prefix used for subsection headings inside the unreleased section.
    pub label_header_prefix: String,
    /// Ordered list of known labels and their rendered subsection headers.
    pub labels: Vec<Section>,
    /// Regex used to detect where the current unreleased section ends.
    pub end_regex: String,
}

/// What `Settings` hold.
pub struct SettingsModel {
    pub start_header: Seq<char>,
    pub label_header_prefix: Seq<char>,
    pub labels: Seq<LabelHeading>,
    pub end_regex: Seq<char>,
}

/// The views of a list of sections, in order.
pub open spec fn headings(sections: Seq<Section>) -> Seq<LabelHeading> {
    sections.map_values(|s: Section| s@)
}

impl View for Settings {
    type V = SettingsModel;

    open spec fn view(&self) -> SettingsModel {
        SettingsModel {
            start_header: self.start_header@,
            label_header_prefix: self.label_header_prefix@,
            labels: headings(self.labels@),
            end_regex: self.end_regex@,
        }
    }
}

/// The label-to-heading pairs of the default settings, in order.
pub open spec fn default_headings() -> Seq<LabelHeading> {
    seq![
        LabelHeading { label: "breaking"@, header: "Breaking Changes"@ },
        LabelHeading { label: "bug"@, header: "Fixes"@ },
        LabelHeading { label: "docs"@, header: "Docs"@ },
        LabelHeading { label: "feature"@, header: "Features"@ },
        LabelHeading { label: "infra"@, header: "Infrastructure"@ },
        LabelHeading { label: "internal"@, header: "Internal"@ },
        LabelHeading { label: "lang"@, header: "Translations"@ },
        LabelHeading { label: "refactor"@, header: "Refactors"@ },
        LabelHeading { label: "security"@, header: "Security Fixes"@ },
        LabelHeading { label: "upgrade"@, header: "Upgrades"@ },
    ]
}

/// The default settings.
pub open spec fn default_settings() -> SettingsModel {
    SettingsModel {
        start_header: "### Latest Changes"@,
        label_header_prefix: "#### "@,
        labels: default_headings(),
        end_regex: "(?m)(^### .*)|(^## .*)"@,
    }
}

/// Builds a section from two string literals.
fn section(label: &str, header: &str) -> (s: Section)
    ensures
        s@ == (LabelHeading { label: label@, header: header@ }),
{
    Section { label: String::from_str(label), header: String::from_str(header) }
}

impl Default for Settings {
    fn default() -> (s: Self)
        ensures
            s@ == default_settings(),
            crate::settings_laws::has_default_values(s@),
    {
        let mut labels: Vec<Section> = Vec::new();
        labels.push(section("breaking", "Breaking Changes"));
        labels.push(section("bug", "Fixes"));
        labels.push(section("docs", "Docs"));
        labels.push(section("feature", "Features"));
        labels.push(section("infra", "Infrastructure"));
        labels.push(section("internal", "Internal"));
        labels.push(section("lang", "Translations"));
        labels.push(section("refactor", "Refactors"));
        labels.push(section("security", "Security Fixes"));
        labels.push(section("upgrade", "Upgrades"));
        let s = Settings {
            start_header: String::from_str("### Latest Changes"),
            label_header_prefix: String::from_str("#### "),
            end_regex: String::from_str("(?m)(^### .*)|(^## .*)"),
            labels,
        };
        assert(headings(s.labels@) =~= default_headings());
        s
    }
}

} // verus!
