//! Optional overrides of the default settings, as the bindings receive them.

use vstd::prelude::*;
use crate::config::{default_settings, headings, LabelHeading, Section, Settings, SettingsModel};

verus! {

/// A label and the header of its section, as given by a caller.
#[derive(Debug, Clone)]
pub struct SectionOptions {
    pub label: String,
    pub header: String,
}

/// Overrides of the default settings; a field left `None` keeps the default.
#[derive(Debug, Clone)]
pub struct GenerateContentOptions {
    pub start_header: Option<String>,
    pub label_header_prefix: Option<String>,
    pub labels: Option<Vec<SectionOptions>>,
    pub end_regex: Option<String>,
}

/// The label-to-heading pairs of a list of section options, in order.
pub open spec fn option_headings(labels: Seq<SectionOptions>) -> Seq<LabelHeading> {
    labels.map_values(|o: SectionOptions| LabelHeading { label: o.label@, header: o.header@ })
}

/// `base` with every field that `options` gives replaced.
pub open spec fn apply_options(base: SettingsModel, options: Option<GenerateContentOptions>) -> SettingsModel {
    match options {
        None => base,
        Some(o) => SettingsModel {
            start_header: match o.start_header {
                Some(h) => h@,
                None => base.start_header,
            },
            label_header_prefix: match o.label_header_prefix {
                Some(p) => p@,
                None => base.label_header_prefix,
            },
            labels: match o.labels {
                Some(l) => option_headings(l@),
                None => base.labels,
            },
            end_regex: match o.end_regex {
                Some(e) => e@,
                None => base.end_regex,
            },
        },
    }
}

/// The sections that a list of section options describes.
fn sections_from(labels: &Vec<SectionOptions>) -> (r: Vec<Section>)
    ensures
        headings(r@) == option_headings(labels@),
{
    let mut r: Vec<Section> = Vec::new();
    let mut i: usize = 0;
    while i < labels.len()
        invariant
            i <= labels.len(),
            headings(r@) =~= option_headings(labels@).take(i as int),
        decreases labels.len() - i,
    {
        let ghost before = r@;
        r.push(Section { label: labels[i].label.clone(), header: labels[i].header.clone() });
        assert(headings(r@) =~= headings(before).push(r@[i as int]@));
        assert(option_headings(labels@).take(i + 1) =~= option_headings(labels@).take(i as int).push(
            option_headings(labels@)[i as int],
        ));
        i += 1;
    }
    assert(option_headings(labels@).take(i as int) =~= option_headings(labels@));
    r
}

/// The default settings with the overrides of `options` applied.
pub fn build_settings(options: Option<GenerateContentOptions>) -> (s: Settings)
    ensures
        s@ == apply_options(default_settings(), options),
        options matches Some(o) ==> o.start_header matches Some(h) ==> s.start_header@ == h@,
        (options is None || options.unwrap().start_header is None) ==> s.start_header@
            == "### Latest Changes"@,
        options matches Some(o) ==> o.label_header_prefix matches Some(p) ==> s.label_header_prefix@
            == p@,
        (options is None || options.unwrap().label_header_prefix is None) ==> s.label_header_prefix@
            == "#### "@,
        options matches Some(o) ==> o.end_regex matches Some(e) ==> s.end_regex@ == e@,
        (options is None || options.unwrap().end_regex is None) ==> s.end_regex@
            == "(?m)(^### .*)|(^## .*)"@,
        options matches Some(o) ==> o.labels matches Some(l) ==> s.labels.len() == l.len()
            && forall|i: int|
            0 <= i < l.len() ==> s.labels@[i].label@ == (#[trigger] l@[i]).label@
                && s.labels@[i].header@ == l@[i].header@,
        (options is None || options.unwrap().labels is None) ==> crate::settings_laws::has_default_labels(
            s@.labels,
        ),
{
    let ghost given = options;
    let mut settings = Settings::default();
    if let Some(options) = options {
        if let Some(start_header) = options.start_header {
            settings.start_header = start_header;
        }
        if let Some(label_header_prefix) = options.label_header_prefix {
            settings.label_header_prefix = label_header_prefix;
        }
        if let Some(labels) = options.labels {
            settings.labels = sections_from(&labels);
        }
        if let Some(end_regex) = options.end_regex {
            settings.end_regex = end_regex;
        }
    }
    proof {
        crate::settings_laws::law_options_override_defaults(given);
        assert forall|i: int| 0 <= i < settings.labels.len() implies settings.labels@[i]@
            == #[trigger] headings(settings.labels@)[i] by {}
    }
    settings
}

} // verus!
