//! The existing entries of the release block survive: what each parsed section
//! holds, and where the loose entries and the section entries end up.

use vstd::prelude::*;
use vstd::utf8::*;
use crate::changelog::{any_heading_pattern, generated, heading_pattern, parse_sections, start_pattern};
use crate::config::{LabelHeading, SettingsModel};
use crate::laws::{lemma_rendered_section_occurs, lemma_trim_edges, law_latest_heading_wins, occurs_in};
use crate::layout::{
    base_section, document, join_blocks, latest_for_label, loose_text, lowest_index, planned_sections,
    prepend_entry, release_parts, release_text, render_section, render_sections, section_text,
    SectionModel,
};
use crate::pattern::{regex_compiles, regex_first_match};
use crate::text::{is_whitespace, text_before, text_from, trim, trim_end, trim_start};

verus! {

/// Whether every character of `s` is whitespace.
pub open spec fn all_whitespace(s: Seq<char>) -> bool {
    forall|i: int| 0 <= i < s.len() ==> is_whitespace(#[trigger] s[i])
}

/// Whether `inner` is `outer` with its surrounding whitespace cut off: `outer` is
/// whitespace, then `inner`, then whitespace, and `inner` neither starts nor ends
/// with whitespace.
pub open spec fn trimmed_from(inner: Seq<char>, outer: Seq<char>) -> bool {
    &&& exists|a: Seq<char>, b: Seq<char>|
        #![trigger all_whitespace(a), all_whitespace(b)]
        all_whitespace(a) && all_whitespace(b) && outer == a + inner + b
    &&& inner.len() > 0 ==> !is_whitespace(inner[0]) && !is_whitespace(inner.last())
}

proof fn lemma_trim_start_split(s: Seq<char>) -> (p: int)
    ensures
        0 <= p <= s.len(),
        trim_start(s) == s.subrange(p, s.len() as int),
        forall|i: int| 0 <= i < p ==> is_whitespace(#[trigger] s[i]),
    decreases s.len(),
{
    if s.len() > 0 && is_whitespace(s[0]) {
        let p0 = lemma_trim_start_split(s.drop_first());
        assert(s.drop_first().subrange(p0, s.len() - 1) =~= s.subrange(p0 + 1, s.len() as int));
        assert forall|i: int| 0 <= i < p0 + 1 implies is_whitespace(#[trigger] s[i]) by {
            if i > 0 {
                assert(s[i] == s.drop_first()[i - 1]);
            }
        }
        p0 + 1
    } else {
        assert(s =~= s.subrange(0, s.len() as int));
        0
    }
}

proof fn lemma_trim_end_split(s: Seq<char>) -> (q: int)
    ensures
        0 <= q <= s.len(),
        trim_end(s) == s.subrange(0, q),
        forall|i: int| q <= i < s.len() ==> is_whitespace(#[trigger] s[i]),
    decreases s.len(),
{
    if s.len() > 0 && is_whitespace(s.last()) {
        let q0 = lemma_trim_end_split(s.drop_last());
        assert(s.drop_last().subrange(0, q0) =~= s.subrange(0, q0));
        assert forall|i: int| q0 <= i < s.len() implies is_whitespace(#[trigger] s[i]) by {
            if i < s.len() - 1 {
                assert(s[i] == s.drop_last()[i]);
            }
        }
        q0
    } else {
        assert(s =~= s.subrange(0, s.len() as int));
        s.len() as int
    }
}

/// `trim(s)` lies at `(p, q)` in `s`, with only whitespace outside.
proof fn lemma_trim_bounds(s: Seq<char>) -> (pq: (int, int))
    ensures
        0 <= pq.0 <= pq.1 <= s.len(),
        trim(s) == s.subrange(pq.0, pq.1),
        forall|i: int| 0 <= i < pq.0 ==> is_whitespace(#[trigger] s[i]),
        forall|i: int| pq.1 <= i < s.len() ==> is_whitespace(#[trigger] s[i]),
{
    let p = lemma_trim_start_split(s);
    let t = s.subrange(p, s.len() as int);
    let q = lemma_trim_end_split(t);
    assert(t.subrange(0, q) =~= s.subrange(p, p + q));
    assert forall|i: int| p + q <= i < s.len() implies is_whitespace(#[trigger] s[i]) by {
        assert(s[i] == t[i - p]);
    }
    (p, p + q)
}

/// Trimming cuts off exactly the surrounding whitespace.
pub proof fn law_trim_cuts_surrounding_whitespace(s: Seq<char>)
    ensures
        trimmed_from(trim(s), s),
{
    let (p, q) = lemma_trim_bounds(s);
    lemma_trim_edges(s);
    let a = s.subrange(0, p);
    let b = s.subrange(q, s.len() as int);
    assert(s =~= a + trim(s) + b);
    assert(all_whitespace(a));
    assert(all_whitespace(b));
}

/// The entries of a section are the text between the end of its heading and the
/// next heading (or the end of the block), with the surrounding whitespace cut off.
pub proof fn law_section_text_is_text_between_headings(
    release: Seq<char>,
    heading_end: int,
    next_heading: Option<usize>,
)
    ensures
        trimmed_from(
            section_text(release, heading_end, next_heading),
            match next_heading {
                Some(n) => text_before(text_from(release, heading_end), n as int),
                None => text_from(release, heading_end),
            },
        ),
{
    let rest = text_from(release, heading_end);
    match next_heading {
        Some(n) => law_trim_cuts_surrounding_whitespace(text_before(rest, n as int)),
        None => law_trim_cuts_surrounding_whitespace(rest),
    }
}

/// Whether `s` is the section of `config` in `release`: it has the label and
/// header of `config`, starts where the heading of `config` is first found, and
/// holds the text from the end of that heading to the next heading, with the
/// surrounding whitespace cut off.
pub open spec fn is_section_of(release: Seq<char>, prefix: Seq<char>, config: LabelHeading, s: SectionModel) -> bool {
    &&& s.label == config.label
    &&& s.header == config.header
    &&& regex_first_match(heading_pattern(prefix, config.header), release) matches Some((start, end))
        && s.index == start && trimmed_from(
        s.content,
        match regex_first_match(any_heading_pattern(prefix), text_from(release, end as int)) {
            Some((n, _)) => text_before(text_from(release, end as int), n as int),
            None => text_from(release, end as int),
        },
    )
}

/// Every parsed section is the section, in the release block, of one of the
/// configured labels.
pub proof fn law_parsed_sections_hold_text_between_headings(
    release: Seq<char>,
    prefix: Seq<char>,
    configs: Seq<LabelHeading>,
)
    ensures
        parse_sections(release, prefix, configs) matches Ok(found) ==> forall|k: int|
            0 <= k < found.len() ==> exists|c: int|
                #![trigger configs[c]]
                0 <= c < configs.len() && is_section_of(release, prefix, configs[c], #[trigger] found[k]),
    decreases configs.len(),
{
    if configs.len() > 0 {
        let rest = configs.drop_last();
        law_parsed_sections_hold_text_between_headings(release, prefix, rest);
        if let Ok(found) = parse_sections(release, prefix, configs) {
            let earlier = parse_sections(release, prefix, rest)->Ok_0;
            let last = configs.last();
            let heading = heading_pattern(prefix, last.header);
            if let Some((start, end)) = regex_first_match(heading, release) {
                let next = match regex_first_match(any_heading_pattern(prefix), text_from(release, end as int)) {
                    Some((s, _)) => Some(s),
                    None => None,
                };
                law_section_text_is_text_between_headings(release, end as int, next);
            }
            assert forall|k: int| 0 <= k < found.len() implies exists|c: int|
                #![trigger configs[c]]
                0 <= c < configs.len() && is_section_of(release, prefix, configs[c], #[trigger] found[k]) by {
                if k < earlier.len() {
                    assert(found[k] == earlier[k]);
                    let c = choose|c: int|
                        #![trigger rest[c]]
                        0 <= c < rest.len() && is_section_of(release, prefix, rest[c], earlier[k]);
                    assert(rest[c] == configs[c]);
                } else {
                    assert(configs[configs.len() - 1] == last);
                }
            }
        }
    }
}

proof fn lemma_occurs_at(part: Seq<char>, whole: Seq<char>, k: int)
    requires
        0 <= k,
        k + part.len() <= whole.len(),
        whole.subrange(k, k + part.len()) =~= part,
    ensures
        occurs_in(part, whole),
{
    assert(whole.subrange(k, k + part.len()) == part);
}

proof fn lemma_occurs_empty(whole: Seq<char>)
    ensures
        occurs_in(Seq::empty(), whole),
{
    lemma_occurs_at(Seq::empty(), whole, 0);
}

proof fn lemma_occurs_front(a: Seq<char>, b: Seq<char>)
    ensures
        occurs_in(a, a + b),
{
    lemma_occurs_at(a, a + b, 0);
}

proof fn lemma_occurs_back(a: Seq<char>, b: Seq<char>)
    ensures
        occurs_in(b, a + b),
{
    lemma_occurs_at(b, a + b, a.len() as int);
}

proof fn lemma_occurs_trans(a: Seq<char>, b: Seq<char>, c: Seq<char>)
    requires
        occurs_in(a, b),
        occurs_in(b, c),
    ensures
        occurs_in(a, c),
{
    let k1 = choose|k: int| 0 <= k && k + a.len() <= b.len() && #[trigger] b.subrange(k, k + a.len()) == a;
    let k2 = choose|k: int| 0 <= k && k + b.len() <= c.len() && #[trigger] c.subrange(k, k + b.len()) == b;
    assert(c.subrange(k2 + k1, k2 + k1 + a.len()) =~= a) by {
        assert forall|i: int| 0 <= i < a.len() implies c.subrange(k2 + k1, k2 + k1 + a.len())[i] == a[i] by {
            assert(c.subrange(k2, k2 + b.len())[k1 + i] == b[k1 + i]);
            assert(b.subrange(k1, k1 + a.len())[i] == a[i]);
        }
    }
    lemma_occurs_at(a, c, k2 + k1);
}

proof fn lemma_occurs_in_prepended(message: Seq<char>, existing: Seq<char>)
    ensures
        occurs_in(existing, prepend_entry(message, existing)),
{
    let p = prepend_entry(message, existing);
    lemma_occurs_at(existing, p, p.len() - existing.len());
}

proof fn lemma_occurs_in_joined(first: Seq<char>, second: Seq<char>)
    ensures
        occurs_in(first, join_blocks(first, second)),
        occurs_in(second, join_blocks(first, second)),
{
    let j = join_blocks(first, second);
    lemma_occurs_at(first, j, 0);
    lemma_occurs_at(second, j, j.len() - second.len());
}

/// The smallest index is no larger than any index of `found`, and it is the index
/// of one of its sections.
pub proof fn law_lowest_index_is_minimum(found: Seq<SectionModel>)
    ensures
        forall|k: int| 0 <= k < found.len() ==> lowest_index(found) <= #[trigger] found[k].index,
        found.len() > 0 ==> exists|k: int| 0 <= k < found.len() && #[trigger] found[k].index == lowest_index(found),
    decreases found.len(),
{
    if found.len() > 0 {
        law_lowest_index_is_minimum(found.drop_last());
        assert forall|k: int| 0 <= k < found.len() implies lowest_index(found) <= #[trigger] found[k].index by {
            if k < found.len() - 1 {
                assert(found[k] == found.drop_last()[k]);
            }
        }
        crate::layout::lemma_lowest_index_is_attained(found);
    }
}

/// With no section found, the whole release block is kept in the rebuilt block.
pub proof fn law_release_kept_without_sections(
    release: Seq<char>,
    found: Seq<SectionModel>,
    configs: Seq<LabelHeading>,
    prefix: Seq<char>,
    message: Seq<char>,
    labels: Seq<Seq<char>>,
)
    requires
        found.len() == 0,
    ensures
        occurs_in(release, release_text(release, found, configs, prefix, message, labels)),
{
    lemma_loose_kept(release, found, configs, prefix, message, labels);
}

proof fn lemma_loose_kept(
    release: Seq<char>,
    found: Seq<SectionModel>,
    configs: Seq<LabelHeading>,
    prefix: Seq<char>,
    message: Seq<char>,
    labels: Seq<Seq<char>>,
)
    ensures
        occurs_in(loose_text(release, found), release_text(release, found, configs, prefix, message, labels)),
{
    let loose = loose_text(release, found);
    let body = render_sections(prefix, planned_sections(found, configs, message, labels));
    lemma_occurs_in_prepended(message, loose);
    if crate::layout::first_requested(configs, labels) is Some {
        lemma_occurs_in_joined(loose, body);
    } else {
        lemma_occurs_in_joined(prepend_entry(message, loose), body);
        lemma_occurs_trans(loose, prepend_entry(message, loose), release_text(release, found, configs, prefix, message, labels));
    }
}

/// The loose entries, the text of the release block before its first section
/// heading with the surrounding whitespace cut off, are kept in the rebuilt block.
pub proof fn law_loose_entries_kept(
    release: Seq<char>,
    found: Seq<SectionModel>,
    configs: Seq<LabelHeading>,
    prefix: Seq<char>,
    message: Seq<char>,
    labels: Seq<Seq<char>>,
    first: int,
)
    requires
        0 <= first < found.len(),
        forall|k: int| 0 <= k < found.len() ==> found[first].index <= #[trigger] found[k].index,
    ensures
        occurs_in(
            trim(text_before(release, found[first].index as int)),
            release_text(release, found, configs, prefix, message, labels),
        ),
{
    law_lowest_index_is_minimum(found);
    let k0 = choose|k: int| 0 <= k < found.len() && #[trigger] found[k].index == lowest_index(found);
    assert(found[first].index <= found[k0].index);
    assert(lowest_index(found) == found[first].index);
    lemma_loose_kept(release, found, configs, prefix, message, labels);
    if found[first].index == 0 {
        assert(encode_utf8(release).subrange(0, 0) =~= Seq::<u8>::empty());
        assert(text_before(release, 0) =~= Seq::<char>::empty());
        assert(trim(text_before(release, 0)) =~= Seq::<char>::empty());
        lemma_occurs_empty(release_text(release, found, configs, prefix, message, labels));
    }
}

/// The entries of the section that each configured label starts from are kept in
/// the rebuilt block (below the message, when the message goes there).
pub proof fn law_section_entries_kept(
    release: Seq<char>,
    found: Seq<SectionModel>,
    configs: Seq<LabelHeading>,
    prefix: Seq<char>,
    message: Seq<char>,
    labels: Seq<Seq<char>>,
    j: int,
)
    requires
        0 <= j < configs.len(),
    ensures
        occurs_in(
            base_section(found, configs[j]).content,
            release_text(release, found, configs, prefix, message, labels),
        ),
{
    let c = base_section(found, configs[j]).content;
    let whole = release_text(release, found, configs, prefix, message, labels);
    if c.len() == 0 {
        lemma_occurs_empty(whole);
        assert(c =~= Seq::<char>::empty());
    } else {
        let plan = planned_sections(found, configs, message, labels);
        let pc = plan[j].content;
        lemma_occurs_in_prepended(message, c);
        if pc != c {
            assert(pc == prepend_entry(message, c));
        } else {
            lemma_occurs_front(c, Seq::empty());
            assert(c + Seq::<char>::empty() =~= c);
        }
        assert(occurs_in(c, pc));
        let r = render_section(prefix, plan[j]);
        lemma_occurs_back(prefix + plan[j].header + seq!['\n', '\n'], pc);
        assert(r =~= (prefix + plan[j].header + seq!['\n', '\n']) + pc);
        lemma_occurs_trans(c, pc, r);
        let body = render_sections(prefix, plan);
        let k = lemma_rendered_section_occurs(prefix, plan, j);
        assert(body.subrange(k, k + r.len()) == r);
        assert(occurs_in(r, body));
        lemma_occurs_trans(c, r, body);
        let loose = if crate::layout::first_requested(configs, labels) is Some {
            loose_text(release, found)
        } else {
            prepend_entry(message, loose_text(release, found))
        };
        lemma_occurs_in_joined(loose, body);
        lemma_occurs_trans(c, body, whole);
    }
}


/// Text of the rebuilt release block that neither starts nor ends with whitespace
/// is kept in the rebuilt file.
pub proof fn law_document_keeps_release_text(pre: Seq<char>, release: Seq<char>, post: Seq<char>, c: Seq<char>)
    requires
        occurs_in(c, release),
        c.len() > 0 ==> !is_whitespace(c[0]) && !is_whitespace(c.last()),
    ensures
        occurs_in(c, document(pre, release, post)),
{
    let out = document(pre, release, post);
    if c.len() == 0 {
        lemma_occurs_empty(out);
        assert(c =~= Seq::<char>::empty());
    } else {
        let k = choose|k: int| 0 <= k && k + c.len() <= release.len() && #[trigger] release.subrange(k, k + c.len()) == c;
        let x = if post.len() == 0 {
            pre + seq!['\n', '\n'] + release + seq!['\n']
        } else {
            pre + seq!['\n', '\n'] + release + seq!['\n', '\n'] + post + seq!['\n']
        };
        let off = pre.len() + 2 + k;
        assert forall|i: int| 0 <= i < c.len() implies x[off + i] == c[i] by {
            assert(release.subrange(k, k + c.len())[i] == c[i]);
        }
        let (p, q) = lemma_trim_bounds(x);
        assert(x[off] == c[0]);
        assert(x[off + c.len() - 1] == c.last());
        if p > off {
            assert(is_whitespace(x[off]));
        }
        if off + c.len() > q {
            assert(is_whitespace(x[off + c.len() - 1]));
        }
        assert(out == trim(x) + seq!['\n']);
        lemma_occurs_at(c, out, off - p);
    }
}

/// Every changelog that is produced keeps the existing entries of the release
/// block: the whole block when it has no section, otherwise the text before its
/// first section heading, and the entries of the section that each configured
/// label starts from.
pub proof fn law_output_keeps_existing_entries(
    content: Seq<char>,
    settings: SettingsModel,
    message: Seq<char>,
    labels: Seq<Seq<char>>,
    header_end: usize,
    next_release: Option<usize>,
    found: Seq<SectionModel>,
)
    requires
        regex_compiles(start_pattern(settings.start_header)),
        regex_first_match(start_pattern(settings.start_header), content) matches Some((_, e)) && e
            == header_end,
        regex_compiles(settings.end_regex),
        next_release == match regex_first_match(settings.end_regex, text_from(content, header_end as int)) {
            Some((s, _)) => Some(s),
            None => None,
        },
        parse_sections(
            release_parts(content, header_end as int, next_release).1,
            settings.label_header_prefix,
            settings.labels,
        ) == Ok::<Seq<SectionModel>, crate::changelog::ErrorModel>(found),
    ensures
        generated(content, settings, message, labels) is Ok,
        ({
            let out = generated(content, settings, message, labels)->Ok_0;
            let release = release_parts(content, header_end as int, next_release).1;
            &&& found.len() == 0 ==> occurs_in(release, out)
            &&& found.len() > 0 ==> occurs_in(trim(text_before(release, lowest_index(found) as int)), out)
            &&& forall|j: int|
                0 <= j < settings.labels.len() ==> occurs_in(
                    #[trigger] base_section(found, settings.labels[j]).content,
                    out,
                )
        }),
{
    let parts = release_parts(content, header_end as int, next_release);
    let release = parts.1;
    let prefix = settings.label_header_prefix;
    let configs = settings.labels;
    let rt = release_text(release, found, configs, prefix, message, labels);
    let out = generated(content, settings, message, labels)->Ok_0;
    assert(out == document(parts.0, rt, parts.2));
    lemma_trim_edges(text_from(content, header_end as int));
    if found.len() == 0 {
        law_release_kept_without_sections(release, found, configs, prefix, message, labels);
        match next_release {
            Some(n) => lemma_trim_edges(text_before(text_from(content, header_end as int), n as int)),
            None => {},
        }
        law_document_keeps_release_text(parts.0, rt, parts.2, release);
    } else {
        law_lowest_index_is_minimum(found);
        let k0 = choose|k: int| 0 <= k < found.len() && #[trigger] found[k].index == lowest_index(found);
        law_loose_entries_kept(release, found, configs, prefix, message, labels, k0);
        let loose = trim(text_before(release, lowest_index(found) as int));
        lemma_trim_edges(text_before(release, lowest_index(found) as int));
        law_document_keeps_release_text(parts.0, rt, parts.2, loose);
    }
    law_parsed_sections_hold_text_between_headings(release, prefix, configs);
    assert forall|j: int| 0 <= j < configs.len() implies occurs_in(
        #[trigger] base_section(found, configs[j]).content,
        out,
    ) by {
        let c = base_section(found, configs[j]).content;
        law_section_entries_kept(release, found, configs, prefix, message, labels, j);
        law_latest_heading_wins(found, configs[j].label);
        if let Some(s) = latest_for_label(found, configs[j].label) {
            let k = choose|k: int| 0 <= k < found.len() && found[k] == s;
            let cfg = choose|cf: int|
                #![trigger configs[cf]]
                0 <= cf < configs.len() && is_section_of(release, prefix, configs[cf], found[k]);
            assert(is_section_of(release, prefix, configs[cfg], found[k]));
        }
        law_document_keeps_release_text(parts.0, rt, parts.2, c);
    }
}

} // verus!
