//! Curated predecessor labels for known replacement projects (`vs …` chips).

use crate::exemplars;
use crate::text;
use crate::text_model as model;
use crate::text_model::CharClass;
use vstd::prelude::*;

verus! {

/// Known replacement projects and what each replaces: `owner/repo|label` per
/// line, `#` comments.
pub const KNOWN_ORIGINS: &'static str = "denoland/deno|Node.js\nsharkdp/fd|find\n";

/// What a project replaces.
#[derive(Debug)]
pub struct Origin {
    /// `owner/repo`.
    pub slug: String,
    pub label: String,
}

/// Slug and label, as text.
pub open spec fn origin_views(origins: Seq<Origin>) -> Seq<(Seq<char>, Seq<char>)> {
    Seq::new(origins.len(), |i: int| (origins[i].slug@, origins[i].label@))
}

/// What a line of the list says: slug and label with a bar between them,
/// neither of them empty.
pub open spec fn origin_line(line: Seq<char>) -> Option<(Seq<char>, Seq<char>)> {
    match model::split_once(exemplars::line_content(line), "|"@) {
        Some(parts) => {
            let slug = exemplars::slug(parts.0);
            let label = model::trim(parts.1, CharClass::Whitespace);
            if slug.len() == 0 || label.len() == 0 {
                None
            } else {
                Some((slug, label))
            }
        },
        None => None,
    }
}

/// The origins of a list's lines.
pub open spec fn origins_in(lines: Seq<Seq<char>>) -> Seq<(Seq<char>, Seq<char>)>
    decreases lines.len(),
{
    if lines.len() == 0 {
        Seq::empty()
    } else {
        match origin_line(lines.last()) {
            Some(origin) => origins_in(lines.drop_last()).push(origin),
            None => origins_in(lines.drop_last()),
        }
    }
}

/// The label of a slug; where it is listed more than once, the last one.
pub open spec fn label_of(origins: Seq<(Seq<char>, Seq<char>)>, slug: Seq<char>) -> Option<
    Seq<char>,
>
    decreases origins.len(),
{
    if origins.len() == 0 {
        None
    } else if origins.last().0 == slug {
        Some(origins.last().1)
    } else {
        label_of(origins.drop_last(), slug)
    }
}

fn parse_line(line: &str) -> (r: Option<Origin>)
    ensures
        match r {
            Some(origin) => origin_line(line@) == Some((origin.slug@, origin.label@)),
            None => origin_line(line@) is None,
        },
{
    let content = exemplars::content_of_line(line);
    let parts = match text::split_once(content.as_str(), "|") {
        Some(parts) => parts,
        None => return None,
    };
    let slug = exemplars::normalize_slug(parts.0);
    let label = text::trim(parts.1, CharClass::Whitespace);
    if slug.as_str().is_empty() || label.is_empty() {
        return None;
    }
    Some(Origin { slug, label: label.to_owned() })
}

/// Parse a list of origins.
pub fn parse_origins(raw: &str) -> (r: Vec<Origin>)
    ensures
        origin_views(r@) == origins_in(model::lines(raw@)),
{
    let lines = text::lines(raw);
    let ghost all = model::lines(raw@);
    let mut out: Vec<Origin> = Vec::new();
    let mut i: usize = 0;
    assert(origin_views(out@) =~= origins_in(all.take(0)));
    while i < lines.len()
        invariant
            i <= lines@.len(),
            all == model::views(lines@),
            origin_views(out@) == origins_in(all.take(i as int)),
        decreases lines@.len() - i,
    {
        assert(all.take(i + 1).drop_last() =~= all.take(i as int));
        assert(all.take(i + 1).last() == lines@[i as int]@);
        if let Some(origin) = parse_line(lines[i].as_str()) {
            let ghost held = out@;
            let ghost view = (origin.slug@, origin.label@);
            out.push(origin);
            assert(origin_views(out@) =~= origin_views(held).push(view));
        }
        i += 1;
    }
    assert(all.take(all.len() as int) =~= all);
    out
}

/// Look up the label of `owner/repo` or of a full GitHub URL in a list.
pub fn lookup_in(origins: &Vec<Origin>, repo: &str) -> (r: Option<String>)
    ensures
        model::opt_view(r) == label_of(origin_views(origins@), exemplars::slug(repo@)),
{
    let slug = exemplars::normalize_slug(repo);
    let ghost views = origin_views(origins@);
    let mut i: usize = origins.len();
    assert(views.take(i as int) =~= views);
    while i > 0
        invariant
            i <= origins@.len(),
            views == origin_views(origins@),
            slug@ == exemplars::slug(repo@),
            label_of(views, slug@) == label_of(views.take(i as int), slug@),
        decreases i,
    {
        assert(views.take(i as int).drop_last() =~= views.take(i - 1));
        assert(views.take(i as int).last() == views[i - 1]);
        i -= 1;
        if text::equal(origins[i].slug.as_str(), slug.as_str()) {
            return Some(origins[i].label.clone());
        }
    }
    None
}

/// Look up a curated origin label by `owner/repo` or full GitHub URL.
pub fn lookup(repo: &str) -> (r: Option<String>)
    ensures
        model::opt_view(r) == label_of(
            origins_in(model::lines(KNOWN_ORIGINS@)),
            exemplars::slug(repo@),
        ),
{
    lookup_in(&parse_origins(KNOWN_ORIGINS), repo)
}

/// No label that is given is empty.
pub proof fn labels_are_never_empty(lines: Seq<Seq<char>>, slug: Seq<char>)
    ensures
        label_of(origins_in(lines), slug) matches Some(label) ==> label.len() > 0,
    decreases lines.len(),
{
    if lines.len() > 0 {
        labels_are_never_empty(lines.drop_last(), slug);
        if let Some(origin) = origin_line(lines.last()) {
            assert(origins_in(lines).drop_last() =~= origins_in(lines.drop_last()));
        }
    }
}

} // verus!
