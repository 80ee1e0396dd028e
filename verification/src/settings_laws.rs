//! What the default settings are and how caller options change them, stated
//! field by field with the literal values.

use vstd::prelude::*;
use crate::config::{default_settings, LabelHeading, SettingsModel};
use crate::options::{apply_options, GenerateContentOptions};

verus! {

/// Whether `s` holds the documented default values, written out literally.
pub open spec fn has_default_values(s: SettingsModel) -> bool {
    &&& s.start_header == "### Latest Changes"@
    &&& s.label_header_prefix == "#### "@
    &&& s.end_regex == "(?m)(^### .*)|(^## .*)"@
    &&& has_default_labels(s.labels)
}

/// Whether `labels` are the ten default label-to-heading pairs, in order.
pub open spec fn has_default_labels(labels: Seq<LabelHeading>) -> bool {
    &&& labels.len() == 10
    &&& labels[0].label == "breaking"@ && labels[0].header == "Breaking Changes"@
    &&& labels[1].label == "bug"@ && labels[1].header == "Fixes"@
    &&& labels[2].label == "docs"@ && labels[2].header == "Docs"@
    &&& labels[3].label == "feature"@ && labels[3].header == "Features"@
    &&& labels[4].label == "infra"@ && labels[4].header == "Infrastructure"@
    &&& labels[5].label == "internal"@ && labels[5].header == "Internal"@
    &&& labels[6].label == "lang"@ && labels[6].header == "Translations"@
    &&& labels[7].label == "refactor"@ && labels[7].header == "Refactors"@
    &&& labels[8].label == "security"@ && labels[8].header == "Security Fixes"@
    &&& labels[9].label == "upgrade"@ && labels[9].header == "Upgrades"@
}

/// The default settings are: start header `### Latest Changes`, heading prefix
/// `#### `, end pattern `(?m)(^### .*)|(^## .*)`, and the ten labels breaking,
/// bug, docs, feature, infra, internal, lang, refactor, security, upgrade with the
/// headings Breaking Changes, Fixes, Docs, Features, Infrastructure, Internal,
/// Translations, Refactors, Security Fixes, Upgrades.
pub proof fn law_default_settings_values()
    ensures
        has_default_values(default_settings()),
{
}

/// Each option that is given replaces its field; each option left out keeps the
/// default value of its field.
pub proof fn law_options_override_defaults(options: Option<GenerateContentOptions>)
    ensures
        ({
            let s = apply_options(default_settings(), options);
            &&& options matches Some(o) ==> o.start_header matches Some(h) ==> s.start_header == h@
            &&& (options is None || options.unwrap().start_header is None) ==> s.start_header
                == "### Latest Changes"@
            &&& options matches Some(o) ==> o.label_header_prefix matches Some(p) ==> s.label_header_prefix
                == p@
            &&& (options is None || options.unwrap().label_header_prefix is None) ==> s.label_header_prefix
                == "#### "@
            &&& options matches Some(o) ==> o.end_regex matches Some(e) ==> s.end_regex == e@
            &&& (options is None || options.unwrap().end_regex is None) ==> s.end_regex
                == "(?m)(^### .*)|(^## .*)"@
            &&& options matches Some(o) ==> o.labels matches Some(l) ==> s.labels.len() == l.len()
                && forall|i: int|
                0 <= i < l.len() ==> s.labels[i].label == (#[trigger] l@[i]).label@ && s.labels[i].header
                    == l@[i].header@
            &&& (options is None || options.unwrap().labels is None) ==> has_default_labels(s.labels)
        }),
{
}

} // verus!
