//! The rebuilt unreleased block: which section gets the new entry, and how the
//! sections and the surrounding text are laid out again.

use vstd::prelude::*;
use vstd::string::*;
use crate::config::{LabelHeading, Settings};
use crate::text::{is_boundary, split_text, text_before, text_from, trim, trim_text};

verus! {

/// Parsed content for a single label section in the unreleased changelog area.
#[derive(Debug, Clone)]
pub struct SectionContent {
    /// Label key associated with this section (for example `feature`).
    pub label: String,
    /// Human-readable section header rendered in markdown.
    pub header: String,
    /// Raw markdown items contained in this section.
    pub content: String,
    /// Byte offset in the source release block, used to order sections as they appear.
    pub index: usize,
}

/// What a `SectionContent` holds.
pub struct SectionModel {
    pub label: Seq<char>,
    pub header: Seq<char>,
    pub content: Seq<char>,
    pub index: usize,
}

impl View for SectionContent {
    type V = SectionModel;

    open spec fn view(&self) -> SectionModel {
        SectionModel {
            label: self.label@,
            header: self.header@,
            content: self.content@,
            index: self.index,
        }
    }
}

/// The views of a list of parsed sections, in order.
pub open spec fn section_models(sections: Seq<SectionContent>) -> Seq<SectionModel> {
    sections.map_values(|s: SectionContent| s@)
}

/// The views of a list of strings, in order.
pub open spec fn views(strings: Seq<String>) -> Seq<Seq<char>> {
    strings.map_values(|s: String| s@)
}

/// A line break.
pub open spec fn newline() -> Seq<char> {
    seq!['\n']
}

/// An empty line between two blocks.
pub open spec fn blank_line() -> Seq<char> {
    seq!['\n', '\n']
}

/// `message` put on top of the entries `existing`.
pub open spec fn prepend_entry(message: Seq<char>, existing: Seq<char>) -> Seq<char> {
    if existing.len() == 0 {
        message
    } else {
        message + newline() + existing
    }
}

/// The smallest index among `found` (`usize::MAX` for none).
pub open spec fn lowest_index(found: Seq<SectionModel>) -> usize
    decreases found.len(),
{
    if found.len() == 0 {
        usize::MAX
    } else {
        let earlier = lowest_index(found.drop_last());
        if found.last().index < earlier {
            found.last().index
        } else {
            earlier
        }
    }
}

/// Among the sections of `found` with label `label`, the one that comes last when
/// they are ordered by index, ties kept in their order in `found`.
pub open spec fn latest_for_label(found: Seq<SectionModel>, label: Seq<char>) -> Option<SectionModel>
    decreases found.len(),
{
    if found.len() == 0 {
        None
    } else {
        let earlier = latest_for_label(found.drop_last(), label);
        let s = found.last();
        if s.label == label && (match earlier {
            Some(e) => e.index <= s.index,
            None => true,
        }) {
            Some(s)
        } else {
            earlier
        }
    }
}

/// The position of the first configured label that `labels` asks for.
pub open spec fn first_requested(configs: Seq<LabelHeading>, labels: Seq<Seq<char>>) -> Option<int>
    decreases configs.len(),
{
    if configs.len() == 0 {
        None
    } else {
        match first_requested(configs.drop_last(), labels) {
            Some(i) => Some(i),
            None => if labels.contains(configs.last().label) {
                Some(configs.len() - 1)
            } else {
                None
            },
        }
    }
}

/// The section that a configured label starts from: the parsed one, or an empty one.
pub open spec fn base_section(found: Seq<SectionModel>, config: LabelHeading) -> SectionModel {
    match latest_for_label(found, config.label) {
        Some(s) => s,
        None => SectionModel {
            label: config.label,
            header: config.header,
            content: Seq::empty(),
            index: usize::MAX,
        },
    }
}

/// The section of the `i`-th configured label once the message is placed.
pub open spec fn planned_section(
    found: Seq<SectionModel>,
    configs: Seq<LabelHeading>,
    i: int,
    message: Seq<char>,
    labels: Seq<Seq<char>>,
) -> SectionModel {
    let b = base_section(found, configs[i]);
    if first_requested(configs, labels) == Some(i) {
        SectionModel {
            label: b.label,
            header: b.header,
            content: prepend_entry(message, b.content),
            index: b.index,
        }
    } else {
        b
    }
}

/// One section per configured label, in the configured order.
pub open spec fn planned_sections(
    found: Seq<SectionModel>,
    configs: Seq<LabelHeading>,
    message: Seq<char>,
    labels: Seq<Seq<char>>,
) -> Seq<SectionModel> {
    Seq::new(configs.len(), |i: int| planned_section(found, configs, i, message, labels))
}

/// A section as markdown: its heading line, an empty line, its entries.
pub open spec fn render_section(prefix: Seq<char>, s: SectionModel) -> Seq<char> {
    prefix + s.header + blank_line() + s.content
}

/// The sections that have entries, rendered and separated by empty lines.
pub open spec fn render_sections(prefix: Seq<char>, sections: Seq<SectionModel>) -> Seq<char>
    decreases sections.len(),
{
    if sections.len() == 0 {
        Seq::empty()
    } else {
        let head = render_sections(prefix, sections.drop_last());
        let s = sections.last();
        if s.content.len() == 0 {
            head
        } else if head.len() == 0 {
            render_section(prefix, s)
        } else {
            head + blank_line() + render_section(prefix, s)
        }
    }
}

/// The entries of the release block that stand before its first section.
pub open spec fn loose_text(release: Seq<char>, found: Seq<SectionModel>) -> Seq<char> {
    if found.len() == 0 {
        release
    } else if lowest_index(found) > 0 {
        trim(text_before(release, lowest_index(found) as int))
    } else {
        Seq::empty()
    }
}

/// Two blocks separated by an empty line; an empty block is left out.
pub open spec fn join_blocks(first: Seq<char>, second: Seq<char>) -> Seq<char> {
    if first.len() > 0 && second.len() > 0 {
        first + blank_line() + second
    } else if second.len() == 0 {
        first
    } else {
        second
    }
}

/// The new release block: the loose entries (with the message on top when no
/// configured label is requested), then the sections that have entries.
pub open spec fn release_text(
    release: Seq<char>,
    found: Seq<SectionModel>,
    configs: Seq<LabelHeading>,
    prefix: Seq<char>,
    message: Seq<char>,
    labels: Seq<Seq<char>>,
) -> Seq<char> {
    let loose = if first_requested(configs, labels) is Some {
        loose_text(release, found)
    } else {
        prepend_entry(message, loose_text(release, found))
    };
    join_blocks(loose, render_sections(prefix, planned_sections(found, configs, message, labels)))
}

/// The whole file: the part up to the start header, the new release block and the
/// older releases, separated by empty lines, trimmed and ended by a line break.
pub open spec fn document(pre: Seq<char>, release: Seq<char>, post: Seq<char>) -> Seq<char> {
    if post.len() == 0 {
        trim(pre + blank_line() + release + newline()) + newline()
    } else {
        trim(pre + blank_line() + release + blank_line() + post + newline()) + newline()
    }
}

/// The part before the end of the start header, the release block and the rest,
/// each trimmed, given where the start header ends and where (counted from that
/// end) the next release begins.
pub open spec fn release_parts(content: Seq<char>, header_end: int, next_release: Option<usize>) -> (
    Seq<char>,
    Seq<char>,
    Seq<char>,
) {
    let tail = text_from(content, header_end);
    let pre = trim(text_before(content, header_end));
    match next_release {
        Some(n) => (pre, trim(text_before(tail, n as int)), trim(text_from(tail, n as int))),
        None => (pre, trim(tail), Seq::empty()),
    }
}

/// The entries of a section whose heading ends at `heading_end`, given where
/// (counted from that end) the next heading begins.
pub open spec fn section_text(release: Seq<char>, heading_end: int, next_heading: Option<usize>) -> Seq<char> {
    let rest = text_from(release, heading_end);
    match next_heading {
        Some(n) => trim(text_before(rest, n as int)),
        None => trim(rest),
    }
}

proof fn lemma_first_requested_prefix(configs: Seq<LabelHeading>, labels: Seq<Seq<char>>, k: int)
    requires
        0 <= k <= configs.len(),
    ensures
        match first_requested(configs.take(k), labels) {
            Some(i) => first_requested(configs, labels) == Some(i) && 0 <= i < k,
            None => match first_requested(configs, labels) {
                Some(j) => k <= j < configs.len(),
                None => true,
            },
        },
    decreases configs.len(),
{
    if k == configs.len() {
        assert(configs.take(k) =~= configs);
        lemma_first_requested_range(configs, labels);
    } else {
        assert(configs.drop_last().take(k) =~= configs.take(k));
        lemma_first_requested_prefix(configs.drop_last(), labels, k);
    }
}

proof fn lemma_first_requested_range(configs: Seq<LabelHeading>, labels: Seq<Seq<char>>)
    ensures
        first_requested(configs, labels) matches Some(i) ==> 0 <= i < configs.len(),
    decreases configs.len(),
{
    if configs.len() > 0 {
        lemma_first_requested_range(configs.drop_last(), labels);
    }
}

/// The smallest index of a non-empty list is the index of one of its sections.
pub proof fn lemma_lowest_index_is_attained(found: Seq<SectionModel>)
    requires
        found.len() > 0,
    ensures
        exists|k: int| 0 <= k < found.len() && #[trigger] found[k].index == lowest_index(found),
    decreases found.len(),
{
    if found.len() == 1 {
        assert(found.drop_last().len() == 0);
        assert(lowest_index(found.drop_last()) == usize::MAX);
        assert(found.last() == found[0]);
        assert(found[0].index == lowest_index(found));
    } else {
        lemma_lowest_index_is_attained(found.drop_last());
        let k = choose|k: int| 0 <= k < found.drop_last().len() && #[trigger] found.drop_last()[k].index
            == lowest_index(found.drop_last());
        if found.last().index < lowest_index(found.drop_last()) {
            assert(found[found.len() - 1].index == lowest_index(found));
        } else {
            assert(found[k].index == lowest_index(found));
        }
    }
}

/// Whether `labels` holds `label`.
fn has_label(labels: &[String], label: &String) -> (r: bool)
    ensures
        r == views(labels@).contains(label@),
{
    let mut i: usize = 0;
    while i < labels.len()
        invariant
            i <= labels.len(),
            forall|k: int| 0 <= k < i ==> labels@[k]@ != label@,
        decreases labels.len() - i,
    {
        if labels[i].eq(label) {
            assert(views(labels@)[i as int] == label@);
            return true;
        }
        i += 1;
    }
    assert forall|k: int| 0 <= k < views(labels@).len() implies views(labels@)[k] != label@ by {
        assert(labels@[k]@ != label@);
    }
    false
}

/// `message` put on top of `existing`.
fn prepend(message: &str, existing: &str) -> (r: String)
    ensures
        r@ == prepend_entry(message@, existing@),
{
    let mut r = String::from_str(message);
    if !existing.is_empty() {
        r.append("\n");
        proof { reveal_strlit("\n"); }
        r.append(existing);
    }
    r
}

/// The position in `sections` of the section with the smallest index.
fn lowest_position(sections: &[SectionContent]) -> (p: usize)
    requires
        sections.len() > 0,
    ensures
        p < sections.len(),
        sections@[p as int].index == lowest_index(section_models(sections@)),
{
    let ghost found = section_models(sections@);
    let mut best: usize = 0;
    let mut j: usize = 1;
    assert(found.take(1).drop_last() =~= found.take(0));
    assert(found.take(1).last() == found[0]);
    assert(found[0].index == sections@[0].index);
    assert(lowest_index(found.take(0)) == usize::MAX);
    while j < sections.len()
        invariant
            found == section_models(sections@),
            1 <= j <= sections.len(),
            best < j,
            sections@[best as int].index == lowest_index(found.take(j as int)),
        decreases sections.len() - j,
    {
        assert(found.take(j + 1).drop_last() =~= found.take(j as int));
        if sections[j].index < sections[best].index {
            best = j;
        }
        j += 1;
    }
    assert(found.take(sections.len() as int) =~= found);
    best
}

/// The position in `sections` of `latest_for_label(.., label)`.
fn latest_position(sections: &[SectionContent], label: &String) -> (p: Option<usize>)
    ensures
        match p {
            Some(j) => j < sections.len() && latest_for_label(section_models(sections@), label@)
                == Some(sections@[j as int]@),
            None => latest_for_label(section_models(sections@), label@) is None,
        },
{
    let ghost found = section_models(sections@);
    let mut best: Option<usize> = None;
    let mut j: usize = 0;
    assert(found.take(0).len() == 0);
    while j < sections.len()
        invariant
            found == section_models(sections@),
            j <= sections.len(),
            match best {
                Some(b) => b < j && latest_for_label(found.take(j as int), label@) == Some(
                    found[b as int],
                ),
                None => latest_for_label(found.take(j as int), label@) is None,
            },
        decreases sections.len() - j,
    {
        assert(found.take(j + 1).drop_last() =~= found.take(j as int));
        let matches = sections[j].label.eq(label);
        let later = match best {
            Some(b) => sections[b].index <= sections[j].index,
            None => true,
        };
        if matches && later {
            best = Some(j);
        }
        j += 1;
    }
    assert(found.take(sections.len() as int) =~= found);
    best
}

/// Rebuilds the release block from its trimmed text, the sections parsed from it
/// and the message: the message goes on top of the first configured section whose
/// label `labels` asks for, or on top of the loose entries when there is none.
pub fn rebuild_release(
    release: &str,
    sections: &[SectionContent],
    settings: &Settings,
    message: &str,
    labels: &[String],
) -> (r: String)
    requires
        sections.len() > 0 ==> is_boundary(release@, lowest_index(section_models(sections@)) as int),
    ensures
        r@ == release_text(
            release@,
            section_models(sections@),
            settings@.labels,
            settings@.label_header_prefix,
            message@,
            views(labels@),
        ),
{
    let ghost found = section_models(sections@);
    let ghost configs = settings@.labels;
    let ghost prefix = settings@.label_header_prefix;
    let ghost wanted = views(labels@);
    let ghost plan = planned_sections(found, configs, message@, wanted);
    let mut loose = if sections.len() == 0 {
        String::from_str(release)
    } else {
        let low = lowest_position(sections);
        let at = sections[low].index;
        assert(at == lowest_index(found));
        if at > 0 {
            let (before, _) = split_text(release, at);
            String::from_str(trim_text(before))
        } else {
            String::new()
        }
    };
    assert(loose@ == loose_text(release@, found));

    let mut body = String::new();
    let mut requested = false;
    let mut i: usize = 0;
    proof { reveal_strlit("\n\n"); }
    assert(plan.take(0) =~= Seq::<SectionModel>::empty());
    while i < settings.labels.len()
        invariant
            found == section_models(sections@),
            configs == settings@.labels,
            prefix == settings@.label_header_prefix,
            wanted == views(labels@),
            plan == planned_sections(found, configs, message@, wanted),
            "\n\n"@ == blank_line(),
            i <= settings.labels.len(),
            requested == (first_requested(configs.take(i as int), wanted) is Some),
            body@ == render_sections(prefix, plan.take(i as int)),
        decreases settings.labels.len() - i,
    {
        let config = &settings.labels[i];
        assert(configs[i as int] == config@);
        let (header, mut content) = match latest_position(sections, &config.label) {
            Some(j) => (sections[j].header.clone(), sections[j].content.clone()),
            None => (config.header.clone(), String::new()),
        };
        proof {
            assert(configs.take(i + 1).drop_last() =~= configs.take(i as int));
            assert(configs.take(i + 1).last() == configs[i as int]);
            lemma_first_requested_prefix(configs, wanted, i + 1);
            lemma_first_requested_prefix(configs, wanted, i as int);
        }
        if !requested && has_label(labels, &config.label) {
            requested = true;
            content = prepend(message, content.as_str());
        }
        assert(header@ == plan[i as int].header);
        assert(content@ == plan[i as int].content);
        if !content.as_str().is_empty() {
            if !body.as_str().is_empty() {
                body.append("\n\n");
            }
            body.append(settings.label_header_prefix.as_str());
            body.append(header.as_str());
            body.append("\n\n");
            body.append(content.as_str());
        }
        assert(plan.take(i + 1).drop_last() =~= plan.take(i as int));
        i += 1;
    }
    assert(plan.take(i as int) =~= plan);
    assert(configs.take(i as int) =~= configs);

    if !requested {
        loose = prepend(message, loose.as_str());
    }
    if !loose.as_str().is_empty() && !body.as_str().is_empty() {
        loose.append("\n\n");
        loose.append(body.as_str());
        loose
    } else if body.as_str().is_empty() {
        loose
    } else {
        body
    }
}

} // verus!
