//! Properties of the rebuilt changelog that hold for every input.

use vstd::prelude::*;
use crate::changelog::{generated, parse_sections, start_pattern, ErrorModel};
use crate::config::{LabelHeading, SettingsModel};
use crate::layout::{
    base_section, blank_line, document, first_requested, join_blocks, latest_for_label,
    loose_text, newline, planned_sections, prepend_entry, release_parts, release_text,
    render_section, render_sections, SectionModel,
};
use crate::pattern::{regex_compiles, regex_error_text, regex_first_match};
use crate::text::{is_whitespace, text_before, text_from, trim, trim_end, trim_start};

verus! {

/// Whether `part` occurs somewhere in `whole`.
pub open spec fn occurs_in(part: Seq<char>, whole: Seq<char>) -> bool {
    exists|k: int|
        0 <= k && k + part.len() <= whole.len() && #[trigger] whole.subrange(k, k + part.len()) == part
}

pub(crate) proof fn lemma_trim_start_shape(s: Seq<char>)
    ensures
        trim_start(s).is_suffix_of(s),
        trim_start(s).len() > 0 ==> !is_whitespace(trim_start(s)[0]),
    decreases s.len(),
{
    if s.len() > 0 && is_whitespace(s[0]) {
        lemma_trim_start_shape(s.drop_first());
        assert(trim_start(s).is_suffix_of(s)) by {
            let t = trim_start(s);
            assert(t =~= s.subrange(s.len() - t.len(), s.len() as int));
        }
    } else {
        assert(s =~= s.subrange(0, s.len() as int));
    }
}

pub(crate) proof fn lemma_trim_end_shape(s: Seq<char>)
    ensures
        trim_end(s).is_prefix_of(s),
        trim_end(s).len() > 0 ==> !is_whitespace(trim_end(s).last()),
    decreases s.len(),
{
    if s.len() > 0 && is_whitespace(s.last()) {
        lemma_trim_end_shape(s.drop_last());
        assert(trim_end(s).is_prefix_of(s)) by {
            let t = trim_end(s);
            assert(t =~= s.subrange(0, t.len() as int));
        }
    } else {
        assert(s =~= s.subrange(0, s.len() as int));
    }
}

/// A trimmed text that is not empty starts and ends with a character that is not
/// whitespace.
pub proof fn lemma_trim_edges(s: Seq<char>)
    ensures
        trim(s).len() > 0 ==> !is_whitespace(trim(s)[0]) && !is_whitespace(trim(s).last()),
{
    lemma_trim_start_shape(s);
    lemma_trim_end_shape(trim_start(s));
    if trim(s).len() > 0 {
        assert(trim(s)[0] == trim_start(s)[0]);
    }
}

/// Trimming twice is trimming once.
pub proof fn law_trim_idempotent(s: Seq<char>)
    ensures
        trim(trim(s)) == trim(s),
{
    let t = trim(s);
    lemma_trim_edges(s);
    if t.len() > 0 {
        assert(trim_start(t) == t);
        assert(trim_end(t) == t);
    } else {
        assert(trim_start(t) == t);
        assert(trim_end(t) == t);
    }
}

/// A text that starts with a non-whitespace character keeps its start when trimmed.
proof fn lemma_trim_start_fixed(s: Seq<char>)
    requires
        s.len() > 0,
        !is_whitespace(s[0]),
    ensures
        trim_start(s) == s,
{
}

/// The rebuilt file always ends with a line break.
pub proof fn law_document_ends_with_newline(pre: Seq<char>, release: Seq<char>, post: Seq<char>)
    ensures
        document(pre, release, post).len() > 0,
        document(pre, release, post).last() == '\n',
{
}

/// The text before the start header and the older releases come back unchanged:
/// when both are trimmed and not empty, the file is exactly the part before the
/// header, an empty line, the new release block, an empty line, the older releases
/// and a line break.
pub proof fn law_document_keeps_surroundings(pre: Seq<char>, release: Seq<char>, post: Seq<char>)
    requires
        trim(pre) == pre,
        pre.len() > 0,
        trim(post) == post,
        post.len() > 0,
    ensures
        document(pre, release, post) == pre + blank_line() + release + blank_line() + post + newline(),
{
    lemma_trim_edges(pre);
    lemma_trim_edges(post);
    let body = pre + blank_line() + release + blank_line() + post;
    let x = body + newline();
    assert(x[0] == pre[0]);
    lemma_trim_start_fixed(x);
    assert(x.drop_last() =~= body);
    assert(body.last() == post.last());
    assert(trim_end(body) == body);
    assert(trim_end(x) == body);
}

/// With no older release, the file is the part before the header, an empty line
/// and the release block, when both are trimmed and not empty.
pub proof fn law_document_without_history(pre: Seq<char>, release: Seq<char>)
    requires
        trim(pre) == pre,
        pre.len() > 0,
        trim(release) == release,
        release.len() > 0,
    ensures
        document(pre, release, Seq::empty()) == pre + blank_line() + release + newline(),
{
    lemma_trim_edges(pre);
    lemma_trim_edges(release);
    let body = pre + blank_line() + release;
    let x = body + newline();
    assert(x[0] == pre[0]);
    lemma_trim_start_fixed(x);
    assert(x.drop_last() =~= body);
    assert(body.last() == release.last());
    assert(trim_end(body) == body);
    assert(trim_end(x) == body);
}


/// Every section with entries shows up, rendered, in the rendered sections.
pub(crate) proof fn lemma_rendered_section_occurs(prefix: Seq<char>, sections: Seq<SectionModel>, i: int) -> (k: int)
    requires
        0 <= i < sections.len(),
        sections[i].content.len() > 0,
    ensures
        0 <= k,
        k + render_section(prefix, sections[i]).len() <= render_sections(prefix, sections).len(),
        render_sections(prefix, sections).subrange(k, k + render_section(prefix, sections[i]).len())
            == render_section(prefix, sections[i]),
    decreases sections.len(),
{
    let all = render_sections(prefix, sections);
    let r = render_section(prefix, sections[i]);
    let head = render_sections(prefix, sections.drop_last());
    if i == sections.len() - 1 {
        let k = all.len() - r.len();
        assert(all.subrange(k, k + r.len()) =~= r);
        k
    } else {
        assert(sections.drop_last()[i] == sections[i]);
        let k = lemma_rendered_section_occurs(prefix, sections.drop_last(), i);
        assert(head.is_prefix_of(all));
        assert(all.subrange(k, k + r.len()) =~= head.subrange(k, k + r.len()));
        k
    }
}

/// The message goes on top of the entries of the first configured section whose
/// label is asked for, and that section, heading and all, appears in the rebuilt
/// release block.
pub proof fn law_message_lands_in_first_requested_section(
    release: Seq<char>,
    found: Seq<SectionModel>,
    configs: Seq<LabelHeading>,
    prefix: Seq<char>,
    message: Seq<char>,
    labels: Seq<Seq<char>>,
    i: int,
)
    requires
        first_requested(configs, labels) == Some(i),
        message.len() > 0,
    ensures
        0 <= i < configs.len(),
        labels.contains(configs[i].label),
        planned_sections(found, configs, message, labels)[i].content == prepend_entry(
            message,
            base_section(found, configs[i]).content,
        ),
        occurs_in(
            render_section(prefix, planned_sections(found, configs, message, labels)[i]),
            release_text(release, found, configs, prefix, message, labels),
        ),
{
    lemma_first_requested_is_requested(configs, labels);
    let plan = planned_sections(found, configs, message, labels);
    let r = render_section(prefix, plan[i]);
    let body = render_sections(prefix, plan);
    let whole = release_text(release, found, configs, prefix, message, labels);
    let k = lemma_rendered_section_occurs(prefix, plan, i);
    assert(body.len() > 0);
    if whole == body {
        assert(whole.subrange(k, k + r.len()) == r);
    } else {
        let off = whole.len() - body.len();
        assert(whole.subrange(off + k, off + k + r.len()) =~= body.subrange(k, k + r.len()));
    }
}

proof fn lemma_first_requested_is_requested(configs: Seq<LabelHeading>, labels: Seq<Seq<char>>)
    ensures
        first_requested(configs, labels) matches Some(i) ==> 0 <= i < configs.len() && labels.contains(
            configs[i].label,
        ) && forall|j: int| 0 <= j < i ==> !labels.contains(#[trigger] configs[j].label),
        first_requested(configs, labels) is None ==> forall|j: int|
            0 <= j < configs.len() ==> !labels.contains(#[trigger] configs[j].label),
    decreases configs.len(),
{
    if configs.len() > 0 {
        lemma_first_requested_is_requested(configs.drop_last(), labels);
        assert forall|j: int| 0 <= j < configs.len() - 1 implies configs.drop_last()[j] == configs[j] by {}
    }
}

/// When none of the configured labels is asked for, the rebuilt release block
/// starts with the message.
pub proof fn law_unlabelled_message_leads(
    release: Seq<char>,
    found: Seq<SectionModel>,
    configs: Seq<LabelHeading>,
    prefix: Seq<char>,
    message: Seq<char>,
    labels: Seq<Seq<char>>,
)
    requires
        first_requested(configs, labels) is None,
    ensures
        message.is_prefix_of(release_text(release, found, configs, prefix, message, labels)),
{
    let whole = release_text(release, found, configs, prefix, message, labels);
    if message.len() > 0 {
        assert(message =~= whole.subrange(0, message.len() as int));
    } else {
        assert(message =~= whole.subrange(0, 0));
    }
}

/// The section chosen for a label is one of the parsed sections with that label,
/// and no parsed section with that label starts later in the release block.
pub proof fn law_latest_heading_wins(found: Seq<SectionModel>, label: Seq<char>)
    ensures
        match latest_for_label(found, label) {
            Some(s) => found.contains(s) && s.label == label && forall|t: SectionModel|
                found.contains(t) && t.label == label ==> t.index <= s.index,
            None => forall|t: SectionModel| found.contains(t) ==> t.label != label,
        },
    decreases found.len(),
{
    if found.len() > 0 {
        let rest = found.drop_last();
        law_latest_heading_wins(rest, label);
        assert forall|t: SectionModel| found.contains(t) implies t == found.last() || rest.contains(t) by {
            let j = choose|j: int| 0 <= j < found.len() && found[j] == t;
            if j < found.len() - 1 {
                assert(rest[j] == t);
            }
        }
        match latest_for_label(found, label) {
            Some(s) => {
                if s == found.last() {
                    assert(found[found.len() - 1] == s);
                } else {
                    let j = choose|j: int| 0 <= j < rest.len() && rest[j] == s;
                    assert(found[j] == s);
                }
            },
            None => {},
        }
    }
}

proof fn lemma_parse_errors_are_refusals(release: Seq<char>, prefix: Seq<char>, configs: Seq<LabelHeading>)
    ensures
        match parse_sections(release, prefix, configs) {
            Err(ErrorModel::InvalidPattern(p, reason)) => !regex_compiles(p) && reason
                == regex_error_text(p),
            Err(ErrorModel::MissingHeader(_)) => false,
            Ok(_) => true,
        },
    decreases configs.len(),
{
    if configs.len() > 0 {
        lemma_parse_errors_are_refusals(release, prefix, configs.drop_last());
    }
}

/// A pattern is reported as invalid only when the regex engine refuses it, and the
/// reason given is the engine's own text for that pattern.
pub proof fn law_invalid_only_when_refused(
    content: Seq<char>,
    settings: SettingsModel,
    message: Seq<char>,
    labels: Seq<Seq<char>>,
)
    ensures
        generated(content, settings, message, labels) matches Err(
            ErrorModel::InvalidPattern(p, reason),
        ) ==> !regex_compiles(p) && reason == regex_error_text(p),
{
    let start = start_pattern(settings.start_header);
    if regex_compiles(start) {
        if let Some((_, header_end)) = regex_first_match(start, content) {
            if regex_compiles(settings.end_regex) {
                let next = match regex_first_match(
                    settings.end_regex,
                    text_from(content, header_end as int),
                ) {
                    Some((s, _)) => Some(s),
                    None => None,
                };
                let parts = release_parts(content, header_end as int, next);
                lemma_parse_errors_are_refusals(parts.1, settings.label_header_prefix, settings.labels);
            }
        }
    }
}

/// The start header is reported missing exactly when its pattern compiles and finds
/// nothing in the content, and the error names the configured start header.
pub proof fn law_missing_header(
    content: Seq<char>,
    settings: SettingsModel,
    message: Seq<char>,
    labels: Seq<Seq<char>>,
)
    ensures
        (generated(content, settings, message, labels) matches Err(ErrorModel::MissingHeader(h)))
            <==> (regex_compiles(start_pattern(settings.start_header)) && regex_first_match(
            start_pattern(settings.start_header),
            content,
        ) is None),
        generated(content, settings, message, labels) matches Err(ErrorModel::MissingHeader(h))
            ==> h == settings.start_header,
{
    let start = start_pattern(settings.start_header);
    if regex_compiles(start) {
        if let Some((_, header_end)) = regex_first_match(start, content) {
            if regex_compiles(settings.end_regex) {
                let next = match regex_first_match(
                    settings.end_regex,
                    text_from(content, header_end as int),
                ) {
                    Some((s, _)) => Some(s),
                    None => None,
                };
                let parts = release_parts(content, header_end as int, next);
                lemma_parse_errors_are_refusals(parts.1, settings.label_header_prefix, settings.labels);
            }
        }
    }
}

/// Every changelog that is produced ends with a line break.
pub proof fn law_output_ends_with_newline(
    content: Seq<char>,
    settings: SettingsModel,
    message: Seq<char>,
    labels: Seq<Seq<char>>,
)
    ensures
        generated(content, settings, message, labels) matches Ok(out) ==> out.len() > 0 && out.last()
            == '\n',
{
}


proof fn lemma_trim_end_keeps(s: Seq<char>, j: int)
    requires
        0 <= j < s.len(),
        !is_whitespace(s[j]),
    ensures
        trim_end(s).len() > j,
    decreases s.len(),
{
    if is_whitespace(s.last()) {
        assert(s.drop_last()[j] == s[j]);
        lemma_trim_end_keeps(s.drop_last(), j);
    }
}

proof fn lemma_trim_start_keeps(s: Seq<char>, j: int)
    requires
        0 <= j < s.len(),
        !is_whitespace(s[j]),
    ensures
        trim_start(s).len() >= s.len() - j,
    decreases s.len(),
{
    if is_whitespace(s[0]) {
        assert(s.drop_first()[j - 1] == s[j]);
        lemma_trim_start_keeps(s.drop_first(), j - 1);
    }
}

/// The text up to the start header leads the rebuilt file, followed by a line
/// break, whenever it is trimmed and not empty.
pub proof fn law_document_starts_with_pre(pre: Seq<char>, release: Seq<char>, post: Seq<char>)
    requires
        trim(pre) == pre,
        pre.len() > 0,
    ensures
        (pre + newline()).is_prefix_of(document(pre, release, post)),
{
    lemma_trim_edges(pre);
    let x = if post.len() == 0 {
        pre + blank_line() + release + newline()
    } else {
        pre + blank_line() + release + blank_line() + post + newline()
    };
    assert(x[0] == pre[0]);
    lemma_trim_start_fixed(x);
    assert(x[pre.len() - 1] == pre.last());
    lemma_trim_end_keeps(x, pre.len() - 1);
    lemma_trim_end_shape(x);
    let t = trim_end(x);
    let out = document(pre, release, post);
    assert(out == t + newline());
    if t.len() == pre.len() {
        assert(t =~= pre) by {
            assert forall|i: int| 0 <= i < t.len() implies t[i] == pre[i] by {
                assert(t[i] == x.subrange(0, t.len() as int)[i]);
            }
        }
        assert(pre + newline() =~= out.subrange(0, pre.len() + 1 as int));
    } else {
        assert(t[pre.len() as int] == x[pre.len() as int]);
        assert(x[pre.len() as int] == '\n');
        assert forall|i: int| 0 <= i < pre.len() + 1 implies (pre + newline())[i] == out[i] by {
            if i < pre.len() {
                assert(t[i] == x.subrange(0, t.len() as int)[i]);
                assert(x[i] == pre[i]);
            }
        }
        assert(pre + newline() =~= out.subrange(0, pre.len() + 1 as int));
    }
}

/// The older releases close the rebuilt file, followed by a line break, whenever
/// they are trimmed and not empty.
pub proof fn law_document_ends_with_post(pre: Seq<char>, release: Seq<char>, post: Seq<char>)
    requires
        trim(post) == post,
        post.len() > 0,
    ensures
        (post + newline()).is_suffix_of(document(pre, release, post)),
{
    lemma_trim_edges(post);
    let head = pre + blank_line() + release + blank_line();
    let body = head + post;
    let x = body + newline();
    assert(x =~= pre + blank_line() + release + blank_line() + post + newline());
    let j = head.len() as int;
    assert(x[j] == post[0]);
    lemma_trim_start_keeps(x, j);
    lemma_trim_start_shape(x);
    let s1 = trim_start(x);
    assert(s1 =~= x.subrange(x.len() - s1.len(), x.len() as int));
    assert(s1.last() == x.last());
    let t = s1.drop_last();
    assert(t.last() == x[x.len() - 2]);
    assert(x[x.len() - 2] == post.last());
    assert(trim_end(t) == t);
    assert(trim_end(s1) == t);
    let out = document(pre, release, post);
    assert(out == t + newline());
    assert forall|i: int| 0 <= i < post.len() + 1 implies (post + newline())[i]
        == out[out.len() - post.len() - 1 + i] by {
        if i < post.len() {
            let k = t.len() - post.len() + i;
            assert(t[k] == s1[k]);
            assert(s1[k] == x[x.len() - s1.len() + k]);
            assert(x[x.len() - s1.len() + k] == post[i]);
        }
    }
    assert(post + newline() =~= out.subrange(out.len() - post.len() - 1, out.len() as int));
}

/// Every changelog that is produced starts with the (trimmed) text up to the end
/// of the start header and a line break.
pub proof fn law_output_starts_with_text_before_header(
    content: Seq<char>,
    settings: SettingsModel,
    message: Seq<char>,
    labels: Seq<Seq<char>>,
)
    ensures
        generated(content, settings, message, labels) matches Ok(out) ==> match regex_first_match(
            start_pattern(settings.start_header),
            content,
        ) {
            Some((_, header_end)) => trim(text_before(content, header_end as int)).len() > 0 ==> (
            trim(text_before(content, header_end as int)) + newline()).is_prefix_of(out),
            None => false,
        },
{
    let start = start_pattern(settings.start_header);
    if regex_compiles(start) {
        if let Some((_, header_end)) = regex_first_match(start, content) {
            if regex_compiles(settings.end_regex) {
                let next = match regex_first_match(settings.end_regex, text_from(content, header_end as int)) {
                    Some((s, _)) => Some(s),
                    None => None,
                };
                let parts = release_parts(content, header_end as int, next);
                if parts.0.len() > 0 {
                    law_trim_idempotent(text_before(content, header_end as int));
                    if let Ok(found) = parse_sections(parts.1, settings.label_header_prefix, settings.labels) {
                        law_document_starts_with_pre(
                            parts.0,
                            release_text(parts.1, found, settings.labels, settings.label_header_prefix, message, labels),
                            parts.2,
                        );
                    }
                }
            }
        }
    }
}

/// Every changelog that is produced ends with the (trimmed) older releases, when
/// there are any, and a line break.
pub proof fn law_output_ends_with_older_releases(
    content: Seq<char>,
    settings: SettingsModel,
    message: Seq<char>,
    labels: Seq<Seq<char>>,
)
    ensures
        generated(content, settings, message, labels) matches Ok(out) ==> match regex_first_match(
            start_pattern(settings.start_header),
            content,
        ) {
            Some((_, header_end)) => {
                let tail = text_from(content, header_end as int);
                match regex_first_match(settings.end_regex, tail) {
                    Some((n, _)) => trim(text_from(tail, n as int)).len() > 0 ==> (trim(
                        text_from(tail, n as int),
                    ) + newline()).is_suffix_of(out),
                    None => true,
                }
            },
            None => false,
        },
{
    let start = start_pattern(settings.start_header);
    if regex_compiles(start) {
        if let Some((_, header_end)) = regex_first_match(start, content) {
            if regex_compiles(settings.end_regex) {
                let tail = text_from(content, header_end as int);
                let next = match regex_first_match(settings.end_regex, tail) {
                    Some((s, _)) => Some(s),
                    None => None,
                };
                let parts = release_parts(content, header_end as int, next);
                if let Some(n) = next {
                    if parts.2.len() > 0 {
                        law_trim_idempotent(text_from(tail, n as int));
                        if let Ok(found) = parse_sections(parts.1, settings.label_header_prefix, settings.labels) {
                            law_document_ends_with_post(
                                parts.0,
                                release_text(parts.1, found, settings.labels, settings.label_header_prefix, message, labels),
                                parts.2,
                            );
                        }
                    }
                }
            }
        }
    }
}


/// The message is put in one place only: on top of the first requested section,
/// every other section and the loose entries staying as they were; or, when no
/// configured label is requested, on top of the loose entries, every section
/// staying as it was.
pub proof fn law_message_placed_once(
    release: Seq<char>,
    found: Seq<SectionModel>,
    configs: Seq<LabelHeading>,
    prefix: Seq<char>,
    message: Seq<char>,
    labels: Seq<Seq<char>>,
)
    ensures
        ({
            let plan = planned_sections(found, configs, message, labels);
            let body = render_sections(prefix, plan);
            let whole = release_text(release, found, configs, prefix, message, labels);
            match first_requested(configs, labels) {
                Some(i) => (forall|j: int|
                    0 <= j < configs.len() && j != i ==> #[trigger] plan[j] == base_section(
                        found,
                        configs[j],
                    )) && whole == join_blocks(loose_text(release, found), body),
                None => (forall|j: int|
                    0 <= j < configs.len() ==> #[trigger] plan[j] == base_section(found, configs[j]))
                    && whole == join_blocks(prepend_entry(message, loose_text(release, found)), body),
            }
        }),
{
}

proof fn lemma_render_prefix(prefix: Seq<char>, sections: Seq<SectionModel>, m: int)
    requires
        0 <= m <= sections.len(),
    ensures
        render_sections(prefix, sections.take(m)).is_prefix_of(render_sections(prefix, sections)),
    decreases sections.len(),
{
    let all = render_sections(prefix, sections);
    if m == sections.len() {
        assert(sections.take(m) =~= sections);
        assert(all =~= all.subrange(0, all.len() as int));
    } else {
        assert(sections.drop_last().take(m) =~= sections.take(m));
        lemma_render_prefix(prefix, sections.drop_last(), m);
        let head = render_sections(prefix, sections.drop_last());
        let part = render_sections(prefix, sections.take(m));
        assert(head.is_prefix_of(all)) by {
            assert(head =~= all.subrange(0, head.len() as int));
        }
        assert(part =~= all.subrange(0, part.len() as int)) by {
            assert forall|x: int| 0 <= x < part.len() implies part[x] == all[x] by {
                assert(part[x] == head[x]);
                assert(head[x] == all[x]);
            }
        }
    }
}

/// Sections with entries come out in the configured order: the rendering of an
/// earlier configured section lies wholly before that of a later one.
pub proof fn law_sections_in_configured_order(
    found: Seq<SectionModel>,
    configs: Seq<LabelHeading>,
    prefix: Seq<char>,
    message: Seq<char>,
    labels: Seq<Seq<char>>,
    i: int,
    j: int,
)
    requires
        0 <= i < j < configs.len(),
        planned_sections(found, configs, message, labels)[i].content.len() > 0,
        planned_sections(found, configs, message, labels)[j].content.len() > 0,
    ensures
        ({
            let plan = planned_sections(found, configs, message, labels);
            let body = render_sections(prefix, plan);
            let ri = render_section(prefix, plan[i]);
            let rj = render_section(prefix, plan[j]);
            exists|k1: int, k2: int|
                #![trigger body.subrange(k1, k1 + ri.len()), body.subrange(k2, k2 + rj.len())]
                0 <= k1 && k1 + ri.len() <= k2 && k2 + rj.len() <= body.len() && body.subrange(
                    k1,
                    k1 + ri.len(),
                ) == ri && body.subrange(k2, k2 + rj.len()) == rj
        }),
{
    let plan = planned_sections(found, configs, message, labels);
    let body = render_sections(prefix, plan);
    let ri = render_section(prefix, plan[i]);
    let rj = render_section(prefix, plan[j]);
    let upto_i = plan.take(i + 1);
    let upto_j = plan.take(j);
    let through_j = plan.take(j + 1);
    assert(upto_i[i] == plan[i]);
    let k1 = lemma_rendered_section_occurs(prefix, upto_i, i);
    let ri_block = render_sections(prefix, upto_i);
    lemma_render_prefix(prefix, plan, i + 1);
    assert(body.subrange(k1, k1 + ri.len()) =~= ri_block.subrange(k1, k1 + ri.len()));
    assert(upto_j.take(i + 1) =~= upto_i);
    lemma_render_prefix(prefix, upto_j, i + 1);
    let before_j = render_sections(prefix, upto_j);
    let rj_block = render_sections(prefix, through_j);
    assert(through_j.drop_last() =~= upto_j);
    assert(through_j.last() == plan[j]);
    let k2 = rj_block.len() - rj.len();
    assert(k2 >= before_j.len());
    assert(rj_block.subrange(k2, k2 + rj.len()) =~= rj);
    lemma_render_prefix(prefix, plan, j + 1);
    assert(body.subrange(k2, k2 + rj.len()) =~= rj_block.subrange(k2, k2 + rj.len()));
}

} // verus!
