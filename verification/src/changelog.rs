//! Inserting a new entry into the unreleased block of a changelog.

use vstd::prelude::*;
use vstd::string::*;
use crate::config::{LabelHeading, Settings, SettingsModel};
use crate::layout::{
    blank_line, document, newline, rebuild_release, release_parts, release_text, section_models,
    section_text, views, SectionContent, SectionModel,
};
use crate::pattern::{
    compile, error_text, escape, escaped, find_first, regex_compiles, regex_error_text,
    regex_first_match, PatternError,
};
use crate::text::{is_boundary, split_text, text_from, trim_text};

verus! {

/// Why no changelog could be produced.
#[derive(Debug)]
pub enum ChangelogError {
    /// A regular expression could not be compiled.
    InvalidPattern {
        /// The pattern that was refused.
        pattern: String,
        /// The regex engine's explanation.
        reason: String,
    },
    /// The content does not contain the start header.
    MissingHeader {
        /// The start header that was looked for.
        header: String,
    },
}

/// What a `ChangelogError` says: the refused pattern and the engine's reason, or
/// the missing header.
pub enum ErrorModel {
    InvalidPattern(Seq<char>, Seq<char>),
    MissingHeader(Seq<char>),
}

impl ChangelogError {
    pub open spec fn model(&self) -> ErrorModel {
        match self {
            ChangelogError::InvalidPattern { pattern, reason } => ErrorModel::InvalidPattern(
                pattern@,
                reason@,
            ),
            ChangelogError::MissingHeader { header } => ErrorModel::MissingHeader(header@),
        }
    }

    /// The human-readable description of the error.
    pub fn message(&self) -> (m: String)
        ensures
            match self {
                ChangelogError::InvalidPattern { reason, .. } => m@ == reason@,
                ChangelogError::MissingHeader { header } => m@
                    == "Content doesn't contain the header: "@ + header@,
            },
    {
        match self {
            ChangelogError::InvalidPattern { reason, .. } => reason.clone(),
            ChangelogError::MissingHeader { header } => {
                let mut m = String::from_str("Content doesn't contain the header: ");
                m.append(header.as_str());
                m
            },
        }
    }
}

/// A result as text and error models.
pub open spec fn outcome(r: Result<String, ChangelogError>) -> Result<Seq<char>, ErrorModel> {
    match r {
        Ok(s) => Ok(s@),
        Err(e) => Err(e.model()),
    }
}

/// The error for a pattern that the regex engine refuses.
pub open spec fn refused(pattern: Seq<char>) -> ErrorModel {
    ErrorModel::InvalidPattern(pattern, regex_error_text(pattern))
}

/// `(?m)`: multi-line mode, in which `^` matches at the start of every line.
pub open spec fn multi_line() -> Seq<char> {
    seq!['(', '?', 'm', ')']
}

/// `(?m)^`: the start of a line.
pub open spec fn line_start() -> Seq<char> {
    seq!['(', '?', 'm', ')', '^']
}

/// The pattern that finds the start header.
pub open spec fn start_pattern(start_header: Seq<char>) -> Seq<char> {
    multi_line() + escaped(start_header)
}

/// The pattern that finds the heading of the section with header `header`.
pub open spec fn heading_pattern(prefix: Seq<char>, header: Seq<char>) -> Seq<char> {
    line_start() + escaped(prefix) + escaped(header)
}

/// The pattern that finds any section heading.
pub open spec fn any_heading_pattern(prefix: Seq<char>) -> Seq<char> {
    line_start() + escaped(prefix)
}

/// The section of `config` as found in `release`, if its heading is there.
pub open spec fn parse_one(release: Seq<char>, prefix: Seq<char>, config: LabelHeading) -> Result<
    Option<SectionModel>,
    ErrorModel,
> {
    let heading = heading_pattern(prefix, config.header);
    if !regex_compiles(heading) {
        Err(refused(heading))
    } else {
        match regex_first_match(heading, release) {
            None => Ok(None),
            Some((start, end)) => {
                let any = any_heading_pattern(prefix);
                if !regex_compiles(any) {
                    Err(refused(any))
                } else {
                    let next = match regex_first_match(any, text_from(release, end as int)) {
                        Some((s, _)) => Some(s),
                        None => None,
                    };
                    Ok(
                        Some(
                            SectionModel {
                                label: config.label,
                                header: config.header,
                                content: section_text(release, end as int, next),
                                index: start,
                            },
                        ),
                    )
                }
            },
        }
    }
}

/// The sections of the configured labels found in `release`, in configured order.
pub open spec fn parse_sections(release: Seq<char>, prefix: Seq<char>, configs: Seq<LabelHeading>) -> Result<
    Seq<SectionModel>,
    ErrorModel,
>
    decreases configs.len(),
{
    if configs.len() == 0 {
        Ok(Seq::empty())
    } else {
        match parse_sections(release, prefix, configs.drop_last()) {
            Err(e) => Err(e),
            Ok(found) => match parse_one(release, prefix, configs.last()) {
                Err(e) => Err(e),
                Ok(None) => Ok(found),
                Ok(Some(s)) => Ok(found.push(s)),
            },
        }
    }
}

/// The changelog with `message` inserted, or why there is none.
pub open spec fn generated(
    content: Seq<char>,
    settings: SettingsModel,
    message: Seq<char>,
    labels: Seq<Seq<char>>,
) -> Result<Seq<char>, ErrorModel> {
    let start = start_pattern(settings.start_header);
    if !regex_compiles(start) {
        Err(refused(start))
    } else {
        match regex_first_match(start, content) {
            None => Err(ErrorModel::MissingHeader(settings.start_header)),
            Some((_, header_end)) => if !regex_compiles(settings.end_regex) {
                Err(refused(settings.end_regex))
            } else {
                let next = match regex_first_match(
                    settings.end_regex,
                    text_from(content, header_end as int),
                ) {
                    Some((s, _)) => Some(s),
                    None => None,
                };
                let parts = release_parts(content, header_end as int, next);
                match parse_sections(parts.1, settings.label_header_prefix, settings.labels) {
                    Err(e) => Err(e),
                    Ok(found) => Ok(
                        document(
                            parts.0,
                            release_text(
                                parts.1,
                                found,
                                settings.labels,
                                settings.label_header_prefix,
                                message,
                                labels,
                            ),
                            parts.2,
                        ),
                    ),
                }
            },
        }
    }
}

proof fn lemma_parse_error_persists(
    release: Seq<char>,
    prefix: Seq<char>,
    configs: Seq<LabelHeading>,
    k: int,
)
    requires
        0 <= k <= configs.len(),
        parse_sections(release, prefix, configs.take(k)) is Err,
    ensures
        parse_sections(release, prefix, configs) == parse_sections(release, prefix, configs.take(k)),
    decreases configs.len(),
{
    if k == configs.len() {
        assert(configs.take(k) =~= configs);
    } else {
        assert(configs.drop_last().take(k) =~= configs.take(k));
        lemma_parse_error_persists(release, prefix, configs.drop_last(), k);
    }
}

/// Splits `content` into the part up to the end of the start header, the release
/// block and the rest, each trimmed; `next_release` is where the next release
/// begins, counted in bytes from the end of the start header.
pub fn split_release(content: &str, header_end: usize, next_release: Option<usize>) -> (r: (
    &str,
    &str,
    &str,
))
    requires
        is_boundary(content@, header_end as int),
        next_release matches Some(n) ==> is_boundary(text_from(content@, header_end as int), n as int),
    ensures
        (r.0@, r.1@, r.2@) == release_parts(content@, header_end as int, next_release),
{
    let (before, tail) = split_text(content, header_end);
    let pre = trim_text(before);
    match next_release {
        Some(n) => {
            let (release, post) = split_text(tail, n);
            (pre, trim_text(release), trim_text(post))
        },
        None => {
            proof { reveal_strlit(""); }
            let post = trim_text("");
            assert(post@ =~= Seq::<char>::empty());
            (pre, trim_text(tail), post)
        },
    }
}

/// The trimmed entries of the section whose heading ends at byte `heading_end` of
/// `release`; `next_heading` is where the next heading begins, counted in bytes
/// from `heading_end`.
pub fn section_body(release: &str, heading_end: usize, next_heading: Option<usize>) -> (r: String)
    requires
        is_boundary(release@, heading_end as int),
        next_heading matches Some(n) ==> is_boundary(text_from(release@, heading_end as int), n as int),
    ensures
        r@ == section_text(release@, heading_end as int, next_heading),
{
    let (_, rest) = split_text(release, heading_end);
    match next_heading {
        Some(n) => {
            let (body, _) = split_text(rest, n);
            String::from_str(trim_text(body))
        },
        None => String::from_str(trim_text(rest)),
    }
}

/// Puts the file back together: the text up to the start header, an empty line,
/// the release block and, when there is any, an empty line and the older
/// releases; trimmed and ended by a line break.
pub fn assemble_document(pre: &str, release: &str, post: &str) -> (r: String)
    ensures
        r@ == document(pre@, release@, post@),
{
    proof {
        reveal_strlit("\n");
        reveal_strlit("\n\n");
    }
    let mut joined = String::from_str(pre);
    joined.append("\n\n");
    joined.append(release);
    if post.is_empty() {
        joined.append("\n");
        assert(joined@ =~= pre@ + blank_line() + release@ + newline());
    } else {
        joined.append("\n\n");
        joined.append(post);
        joined.append("\n");
        assert(joined@ =~= pre@ + blank_line() + release@ + blank_line() + post@ + newline());
    }
    let mut r = String::from_str(trim_text(joined.as_str()));
    r.append("\n");
    r
}

/// The error for a pattern that the regex engine refused.
fn invalid_pattern(pattern: String, e: &PatternError) -> (r: ChangelogError)
    requires
        e@ == pattern@,
    ensures
        r.model() == refused(pattern@),
{
    ChangelogError::InvalidPattern { pattern, reason: error_text(e) }
}

/// `head` followed by `rest`.
fn joined(head: &str, rest: &str) -> (r: String)
    ensures
        r@ == head@ + rest@,
{
    let mut r = String::from_str(head);
    r.append(rest);
    r
}

/// Parses the section of each configured label out of the release block.
fn parse_release(release: &str, settings: &Settings) -> (r: Result<Vec<SectionContent>, ChangelogError>)
    ensures
        match (r, parse_sections(release@, settings@.label_header_prefix, settings@.labels)) {
            (Ok(v), Ok(found)) => section_models(v@) == found && forall|k: int|
                0 <= k < v.len() ==> is_boundary(release@, #[trigger] v@[k].index as int),
            (Err(e), Err(m)) => e.model() == m,
            _ => false,
        },
{
    let ghost prefix = settings@.label_header_prefix;
    let ghost configs = settings@.labels;
    proof { reveal_strlit("(?m)^"); }
    let prefix_escaped = escape(settings.label_header_prefix.as_str());
    let any_heading = joined("(?m)^", prefix_escaped.as_str());
    assert(any_heading@ == any_heading_pattern(prefix));
    let mut found: Vec<SectionContent> = Vec::new();
    let mut i: usize = 0;
    assert(configs.take(0) =~= Seq::<LabelHeading>::empty());
    assert(section_models(found@) =~= Seq::<SectionModel>::empty());
    while i < settings.labels.len()
        invariant
            prefix == settings@.label_header_prefix,
            configs == settings@.labels,
            prefix_escaped@ == escaped(prefix),
            any_heading@ == any_heading_pattern(prefix),
            "(?m)^"@ == line_start(),
            i <= settings.labels.len(),
            parse_sections(release@, prefix, configs.take(i as int)) == Ok::<
                Seq<SectionModel>,
                ErrorModel,
            >(section_models(found@)),
            forall|k: int| 0 <= k < found.len() ==> is_boundary(release@, #[trigger] found@[k].index as int),
        decreases settings.labels.len() - i,
    {
        let config = &settings.labels[i];
        assert(configs[i as int] == config@);
        assert(configs.take(i + 1).drop_last() =~= configs.take(i as int));
        assert(configs.take(i + 1).last() == config@);
        let header_escaped = escape(config.header.as_str());
        let heading = joined(any_heading.as_str(), header_escaped.as_str());
        assert(heading@ == heading_pattern(prefix, config@.header));
        let compiled = match compile(heading.as_str()) {
            Ok(p) => p,
            Err(e) => {
                proof { lemma_parse_error_persists(release@, prefix, configs, i + 1); }
                return Err(invalid_pattern(heading, &e));
            },
        };
        match find_first(&compiled, release) {
            None => {},
            Some((start, end)) => {
                let any = match compile(any_heading.as_str()) {
                    Ok(p) => p,
                    Err(e) => {
                        proof { lemma_parse_error_persists(release@, prefix, configs, i + 1); }
                        return Err(invalid_pattern(any_heading.clone(), &e));
                    },
                };
                let (_, rest) = split_text(release, end);
                let next = match find_first(&any, rest) {
                    Some((s, _)) => Some(s),
                    None => None,
                };
                let body = section_body(release, end, next);
                let section = SectionContent {
                    label: config.label.clone(),
                    header: config.header.clone(),
                    content: body,
                    index: start,
                };
                let ghost before = found@;
                found.push(section);
                assert(section_models(found@) =~= section_models(before).push(section@));
            },
        }
        i += 1;
    }
    assert(configs.take(i as int) =~= configs);
    Ok(found)
}

/// Inserts a new changelog `message` into the unreleased section.
///
/// The function looks for `settings.start_header`, parses known label sections,
/// prepends the new message to the first matching label in `labels`, and rebuilds
/// the unreleased block while preserving the rest of the file.
///
/// Returns an error when required regexes cannot be compiled or when the start
/// header cannot be found in `content`.
pub fn generate_content(content: &str, settings: &Settings, message: String, labels: &[String]) -> (r:
    Result<String, ChangelogError>)
    ensures
        outcome(r) == generated(content@, settings@, message@, views(labels@)),
{
    proof { reveal_strlit("(?m)"); }
    let header_escaped = escape(settings.start_header.as_str());
    let start = joined("(?m)", header_escaped.as_str());
    assert(start@ == start_pattern(settings@.start_header));
    let header_pattern = match compile(start.as_str()) {
        Ok(p) => p,
        Err(e) => return Err(invalid_pattern(start, &e)),
    };
    let header_end = match find_first(&header_pattern, content) {
        Some((_, end)) => end,
        None => return Err(ChangelogError::MissingHeader { header: settings.start_header.clone() }),
    };
    let end_pattern = match compile(settings.end_regex.as_str()) {
        Ok(p) => p,
        Err(e) => return Err(invalid_pattern(settings.end_regex.clone(), &e)),
    };
    let (_, tail) = split_text(content, header_end);
    let next_release = match find_first(&end_pattern, tail) {
        Some((s, _)) => Some(s),
        None => None,
    };
    let (pre, release, post) = split_release(content, header_end, next_release);
    let sections = match parse_release(release, settings) {
        Ok(v) => v,
        Err(e) => return Err(e),
    };
    proof {
        let found = section_models(sections@);
        if sections.len() > 0 {
            crate::layout::lemma_lowest_index_is_attained(found);
            let k = choose|k: int| 0 <= k < found.len() && #[trigger] found[k].index == crate::layout::lowest_index(found);
            assert(is_boundary(release@, sections@[k].index as int));
        }
    }
    let body = rebuild_release(release, sections.as_slice(), settings, message.as_str(), labels);
    Ok(assemble_document(pre, body.as_str(), post))
}

} // verus!
