//! Laws of the site and of the curated lists behind it.

use crate::double::Double;
use crate::exemplars;
use crate::laws::log;
use crate::laws::texts;
use crate::order;
use crate::origins;
use crate::site;
use crate::text_model as model;
use crate::text_model::CharClass;
use crate::types::Project;
use vstd::prelude::*;
use vstd::string::*;

verus! {

// --- The site ----------------------------------------------------------------

/// A project on the site is a stored one.
pub open spec fn is_the_same_project(a: Project, b: Project) -> bool {
    &&& a.repo_url == b.repo_url
    &&& a.name == b.name
    &&& a.description == b.description
    &&& a.stars == b.stars
    &&& a.confidence == b.confidence
    &&& a.project_kind == b.project_kind
    &&& a.rust_percentage == b.rust_percentage
    &&& a.original_language == b.original_language
    &&& a.signals@ == b.signals@
}

proof fn lemma_shown(projects: Seq<Project>, n: int, i: int) -> (k: int)
    requires
        0 <= i < n <= projects.len(),
        site::is_shown(projects[i]),
    ensures
        0 <= k < site::shown(projects, n).len(),
        site::shown(projects, n)[k] == i,
    decreases n,
{
    if i == n - 1 {
        site::shown(projects, n - 1).len() as int
    } else {
        lemma_shown(projects, n - 1, i)
    }
}

spec fn site_order(
    projects: Seq<Project>,
    exemplar_slugs: Seq<Seq<char>>,
    origin_list: Seq<(Seq<char>, Seq<char>)>,
    r: Seq<Project>,
) -> Seq<usize> {
    let indices = site::shown(projects, projects.len() as int);
    choose|order: Seq<usize>| #[trigger]
        order::orders(
            site::site_keys(projects, indices, exemplar_slugs),
            order,
            indices.len() as int,
        ) && r.len() == indices.len() && forall|k: int|
            0 <= k < r.len() ==> site::shown_as(
                projects[indices[order[k] as int]],
                exemplar_slugs,
                origin_list,
                #[trigger] r[k],
            )
}

/// Every project with provenance and some confidence is on the site, with its mark
/// and its curated origin.
pub proof fn every_project_with_provenance_is_shown(
    projects: Seq<Project>,
    exemplar_slugs: Seq<Seq<char>>,
    origin_list: Seq<(Seq<char>, Seq<char>)>,
    r: Seq<Project>,
    i: int,
)
    requires
        site::site_holds(projects, exemplar_slugs, origin_list, r),
        0 <= i < projects.len(),
        projects[i].project_kind@ != "neither"@,
        projects[i].confidence.above(Double { bits: 0 }),
    ensures
        exists|k: int|
            0 <= k < r.len() && is_the_same_project(#[trigger] r[k], projects[i]) && (
            r[k].exemplar <==> exemplar_slugs.contains(exemplars::slug(projects[i].repo_url@)))
                && model::opt_view(r[k].named_origin) == (match origins::label_of(
                origin_list,
                exemplars::slug(projects[i].repo_url@),
            ) {
                Some(label) => Some(label),
                None => model::opt_view(projects[i].named_origin),
            }),
{
    let indices = site::shown(projects, projects.len() as int);
    let keys = site::site_keys(projects, indices, exemplar_slugs);
    let order = site_order(projects, exemplar_slugs, origin_list, r);
    let at = lemma_shown(projects, projects.len() as int, i);
    order::an_order_is_a_permutation(keys, order);
    assert(order::lists_item(order, at));
    let k = choose|k: int| 0 <= k < order.len() && #[trigger] order[k] == at;
    assert(site::shown_as(
        projects[indices[order[k] as int]],
        exemplar_slugs,
        origin_list,
        r[k],
    ));
    assert(is_the_same_project(r[k], projects[i]));
}

/// On the site rewrites come before the rest, exemplars aside; then the greater
/// confidence comes first, and of equal ones the more stars.
pub proof fn the_site_is_in_order(
    projects: Seq<Project>,
    exemplar_slugs: Seq<Seq<char>>,
    origin_list: Seq<(Seq<char>, Seq<char>)>,
    r: Seq<Project>,
    i: int,
    j: int,
)
    requires
        site::site_holds(projects, exemplar_slugs, origin_list, r),
        0 <= i < j < r.len(),
    ensures
        r[j].exemplar ==> r[i].exemplar,
        r[i].exemplar == r[j].exemplar ==> {
            let (a, b) = (r[i].project_kind@ == "rewrite"@, r[j].project_kind@ == "rewrite"@);
            &&& b ==> a
            &&& a == b ==> r[i].confidence.at_least(r[j].confidence)
            &&& a == b && r[i].confidence == r[j].confidence ==> r[i].stars >= r[j].stars
        },
{
    let indices = site::shown(projects, projects.len() as int);
    let keys = site::site_keys(projects, indices, exemplar_slugs);
    let order = site_order(projects, exemplar_slugs, origin_list, r);
    assert(order::comes_before(keys, order[i] as int, order[j] as int));
    assert(site::shown_as(
        projects[indices[order[i] as int]],
        exemplar_slugs,
        origin_list,
        r[i],
    ));
    assert(site::shown_as(
        projects[indices[order[j] as int]],
        exemplar_slugs,
        origin_list,
        r[j],
    ));
    site::only_provenance_is_shown(projects, exemplar_slugs, origin_list, r, i);
    site::only_provenance_is_shown(projects, exemplar_slugs, origin_list, r, j);
}

/// A project without provenance or without confidence is not on the site.
pub proof fn nothing_else_is_shown(
    projects: Seq<Project>,
    exemplar_slugs: Seq<Seq<char>>,
    origin_list: Seq<(Seq<char>, Seq<char>)>,
    r: Seq<Project>,
    k: int,
)
    requires
        site::site_holds(projects, exemplar_slugs, origin_list, r),
        0 <= k < r.len(),
    ensures
        r[k].project_kind@ != "neither"@,
        r[k].confidence.above(Double { bits: 0 }),
{
    site::only_provenance_is_shown(projects, exemplar_slugs, origin_list, r, k);
}

/// Embedding changes each `<` alone, into an escape of six characters.
pub proof fn tags_are_escaped(json: Seq<char>, c: char)
    ensures
        c != '<' ==> site::embedded(json.push(c)) == site::embedded(json).push(c),
        c == '<' ==> site::embedded(json.push(c)) == site::embedded(json) + seq![
            '\\',
            'u',
            '0',
            '0',
            '3',
            'c',
        ],
{
    reveal_strlit("\\u003c");
    assert("\\u003c"@ =~= seq!['\\', 'u', '0', '0', '3', 'c']);
    assert(json.push(c).drop_last() =~= json);
}

// --- Slugs -------------------------------------------------------------------

/// A name of a repository: visible characters of ASCII, without colons and without
/// a slash at its end.
pub open spec fn is_repository_name(name: Seq<char>) -> bool {
    &&& texts::is_word(name)
    &&& model::all_ascii(name)
    &&& log::lacks(name, ':')
    &&& name.last() != '/'
}

proof fn lemma_bare(name: Seq<char>)
    requires
        is_repository_name(name),
    ensures
        exemplars::repository_path(name) == name,
        exemplars::repository_path(name.push('/')) == name,
        exemplars::repository_path("https://github.com/"@ + name) == name,
        exemplars::repository_path("https://github.com/"@ + name.push('/')) == name,
        exemplars::repository_path("http://github.com/"@ + name) == name,
{
    reveal(model::is_whitespace);
    let slashed = name.push('/');
    assert(texts::is_word(slashed)) by {
        assert forall|i: int| 0 <= i < slashed.len() implies !model::is_whitespace(
            #[trigger] slashed[i],
        ) by {
            if i < name.len() {
                assert(!model::is_whitespace(name[i]));
            }
        }
    }
    assert(slashed.drop_last() =~= name);
    lemma_path(name, name);
    lemma_path(slashed, name);
}

proof fn lemma_path(rest: Seq<char>, name: Seq<char>)
    requires
        is_repository_name(name),
        texts::is_word(rest),
        rest == name || rest == name.push('/'),
    ensures
        exemplars::repository_path(rest) == name,
        exemplars::repository_path("https://github.com/"@ + rest) == name,
        exemplars::repository_path("http://github.com/"@ + rest) == name,
{
    reveal(model::is_whitespace);
    let (secure, plain) = ("https://github.com/"@, "http://github.com/"@);
    reveal_strlit("https://github.com/");
    reveal_strlit("http://github.com/");
    let class = CharClass::Only('/');
    assert(model::trim_end(name, class) == name);
    if rest == name.push('/') {
        assert(rest.drop_last() =~= name);
        assert(rest.last() == '/');
    }
    assert(model::trim_end(rest, class) == name);
    assert(!model::starts_with(rest, secure)) by {
        if model::starts_with(rest, secure) {
            assert(rest.take(19)[5] == rest[5]);
            assert(rest[5] == ':');
            assert(rest[5] == name[5]);
        }
    }
    assert(!model::starts_with(rest, plain)) by {
        if model::starts_with(rest, plain) {
            assert(rest.take(18)[4] == rest[4]);
            assert(rest[4] == ':');
            assert(rest[4] == name[4]);
        }
    }
    assert(model::trim_start_text(rest, secure) == rest);
    assert(model::trim_start_text(rest, plain) == rest);
    texts::words_are_words(rest);
    let link = secure + rest;
    assert forall|i: int| 0 <= i < link.len() implies !model::is_whitespace(#[trigger] link[i]) by {
        if i >= 19 {
            assert(link[i] == rest[i - 19]);
        }
    }
    texts::words_are_words(link);
    assert(link.take(19) =~= secure);
    assert(link.skip(19) =~= rest);
    assert(model::trim_start_text(link, secure) == rest);
    let open_link = plain + rest;
    assert forall|i: int| 0 <= i < open_link.len() implies !model::is_whitespace(
        #[trigger] open_link[i],
    ) by {
        if i >= 18 {
            assert(open_link[i] == rest[i - 18]);
        }
    }
    texts::words_are_words(open_link);
    assert(open_link.take(18) =~= plain);
    assert(open_link.skip(18) =~= rest);
    assert(!model::starts_with(open_link, secure)) by {
        if model::starts_with(open_link, secure) {
            assert(open_link.take(19)[4] == open_link[4]);
            assert(open_link[4] == ':');
        }
    }
    assert(model::trim_start_text(open_link, secure) == open_link);
    assert(model::trim_start_text(open_link, plain) == rest);
}

/// A name and the links to it have one slug: the name in lower case.
pub proof fn links_and_names_have_one_slug(name: Seq<char>)
    requires
        is_repository_name(name),
    ensures
        exemplars::slug(name) == model::ascii_lowercase(name),
        exemplars::slug(name.push('/')) == model::ascii_lowercase(name),
        exemplars::slug("https://github.com/"@ + name) == model::ascii_lowercase(name),
        exemplars::slug("https://github.com/"@ + name.push('/')) == model::ascii_lowercase(name),
        exemplars::slug("http://github.com/"@ + name) == model::ascii_lowercase(name),
{
    lemma_bare(name);
    model::lemma_lowered_ascii(name);
}

/// The path of a repository is taken from its link as it is written.
pub proof fn paths_are_taken_from_links(name: Seq<char>)
    requires
        is_repository_name(name),
    ensures
        exemplars::repository_path("https://github.com/"@ + name) == name,
        exemplars::repository_path(name) == name,
{
    lemma_bare(name);
}

// --- Lists -------------------------------------------------------------------

/// What follows a hash in a line says nothing.
pub proof fn comments_say_nothing(text: Seq<char>, comment: Seq<char>)
    requires
        log::lacks(text, '#'),
    ensures
        exemplars::line_content(text.push('#') + comment) == exemplars::line_content(text),
        texts::is_word(text) ==> exemplars::line_content(text) == text,
        exemplars::line_content(seq!['#'] + comment).len() == 0,
{
    texts::texts_are_taken_apart(text, '#', comment);
    log::lemma_one_piece(text, '#');
    assert(seq![text][0] == text);
    if texts::is_word(text) {
        texts::words_are_words(text);
    }
    let none = Seq::<char>::empty();
    texts::texts_are_taken_apart(none, '#', comment);
    assert(none.push('#') + comment =~= seq!['#'] + comment);
}

/// A list of exemplars holds the slugs of its lines, and no others.
pub proof fn only_lines_are_listed(lines: Seq<Seq<char>>, k: int)
    requires
        0 <= k < exemplars::slugs_in(lines).len(),
    ensures
        exists|i: int|
            0 <= i < lines.len() && exemplars::line_content(#[trigger] lines[i]).len() > 0
                && exemplars::slugs_in(lines)[k] == exemplars::slug(
                exemplars::line_content(lines[i]),
            ),
    decreases lines.len(),
{
    let before = exemplars::slugs_in(lines.drop_last());
    let n = lines.len() - 1;
    if k < before.len() {
        only_lines_are_listed(lines.drop_last(), k);
        let i = choose|i: int|
            0 <= i < n && exemplars::line_content(#[trigger] lines.drop_last()[i]).len() > 0
                && before[k] == exemplars::slug(exemplars::line_content(lines.drop_last()[i]));
        assert(lines[i] == lines.drop_last()[i]);
    } else {
        assert(exemplars::line_content(lines[n]).len() > 0);
    }
}

/// An exemplar is listed by its name on a line of its own, with a comment or
/// without, and found by its link.
pub proof fn listed_exemplars_are_found(
    lines: Seq<Seq<char>>,
    name: Seq<char>,
    comment: Seq<char>,
    i: int,
)
    requires
        is_repository_name(name),
        log::lacks(name, '#'),
        0 <= i < lines.len(),
        lines[i] == name || lines[i] == name.push('#') + comment,
    ensures
        exemplars::slugs_in(lines).contains(exemplars::slug("https://github.com/"@ + name)),
        exemplars::slugs_in(lines).contains(exemplars::slug(name)),
{
    comments_say_nothing(name, comment);
    links_and_names_have_one_slug(name);
    exemplars::every_line_is_listed(lines, i);
}

/// A line of origins gives its label to its name.
pub proof fn origins_are_read_back(name: Seq<char>, label: Seq<char>)
    requires
        is_repository_name(name),
        log::lacks(name, '#'),
        log::lacks(name, '|'),
        texts::is_word(label),
        log::lacks(label, '#'),
    ensures
        origins::origin_line(name.push('|') + label) == Some(
            (model::ascii_lowercase(name), label),
        ),
{
    reveal(model::is_whitespace);
    let line = name.push('|') + label;
    assert forall|i: int| 0 <= i < line.len() implies #[trigger] line[i] != '#'
        && !model::is_whitespace(line[i]) by {
        if i < name.len() {
            assert(line[i] == name[i]);
        } else if i > name.len() {
            assert(line[i] == label[i - name.len() - 1]);
        }
    }
    assert(log::lacks(line, '#'));
    assert(texts::is_word(line));
    comments_say_nothing(line, Seq::empty());
    texts::texts_are_taken_apart(name, '|', label);
    reveal_strlit("|");
    assert("|"@ =~= seq!['|']);
    links_and_names_have_one_slug(name);
    texts::words_are_words(label);
}

/// Where a repository is listed more than once, its last label holds; other
/// repositories keep theirs.
pub proof fn the_last_label_holds(
    origin_list: Seq<(Seq<char>, Seq<char>)>,
    slug: Seq<char>,
    label: Seq<char>,
    other: Seq<char>,
)
    requires
        other != slug,
    ensures
        origins::label_of(origin_list.push((slug, label)), slug) == Some(label),
        origins::label_of(origin_list.push((slug, label)), other) == origins::label_of(
            origin_list,
            other,
        ),
        origins::label_of(Seq::empty(), slug) is None,
{
    assert(origin_list.push((slug, label)).drop_last() =~= origin_list);
}

/// A line that says a label adds it to the list, and any other line adds nothing.
pub proof fn every_origin_is_listed(
    lines: Seq<Seq<char>>,
    name: Seq<char>,
    label: Seq<char>,
    other: Seq<char>,
)
    requires
        is_repository_name(name),
        log::lacks(name, '#'),
        log::lacks(name, '|'),
        texts::is_word(label),
        log::lacks(label, '#'),
        log::lacks(other, '|'),
    ensures
        origins::label_of(
            origins::origins_in(lines.push(name.push('|') + label)),
            exemplars::slug("https://github.com/"@ + name),
        ) == Some(label),
        origins::origins_in(lines.push(other)) == origins::origins_in(lines),
{
    let line = name.push('|') + label;
    origins_are_read_back(name, label);
    links_and_names_have_one_slug(name);
    assert(lines.push(line).drop_last() =~= lines);
    assert(lines.push(other).drop_last() =~= lines);
    the_last_label_holds(
        origins::origins_in(lines),
        model::ascii_lowercase(name),
        label,
        model::ascii_lowercase(name).push(' '),
    );
    lemma_content_lacks(other);
    reveal_strlit("|");
    assert("|"@ =~= seq!['|']);
    model::lemma_lacks(exemplars::line_content(other), "|"@, 0);
}

/// What a line without a bar says has none.
proof fn lemma_content_lacks(line: Seq<char>)
    requires
        log::lacks(line, '|'),
    ensures
        log::lacks(exemplars::line_content(line), '|'),
{
    lemma_pieces_lack(line);
    texts::lemma_some_piece(line, CharClass::Only('#'));
    let s = model::before_first(line, '#');
    lemma_start_lacks(s);
    lemma_end_lacks(model::trim_start(s, CharClass::Whitespace));
}

proof fn lemma_pieces_lack(s: Seq<char>)
    requires
        log::lacks(s, '|'),
    ensures
        forall|i: int|
            0 <= i < model::split(s, CharClass::Only('#')).len() ==> log::lacks(
                #[trigger] model::split(s, CharClass::Only('#'))[i],
                '|',
            ),
    decreases s.len(),
{
    if s.len() > 0 {
        let rest = s.drop_last();
        assert forall|i: int| 0 <= i < rest.len() implies #[trigger] rest[i] != '|' by {
            assert(s[i] != '|');
        }
        lemma_pieces_lack(rest);
        texts::lemma_some_piece(rest, CharClass::Only('#'));
        let before = model::split(rest, CharClass::Only('#'));
        assert(log::lacks(before[before.len() - 1], '|'));
        assert(s[s.len() - 1] != '|');
    }
}

proof fn lemma_start_lacks(s: Seq<char>)
    requires
        log::lacks(s, '|'),
    ensures
        log::lacks(model::trim_start(s, CharClass::Whitespace), '|'),
    decreases s.len(),
{
    if s.len() > 0 && model::is_whitespace(s[0]) {
        let rest = s.drop_first();
        assert forall|i: int| 0 <= i < rest.len() implies #[trigger] rest[i] != '|' by {
            assert(s[i + 1] != '|');
        }
        lemma_start_lacks(rest);
    }
}

proof fn lemma_end_lacks(s: Seq<char>)
    requires
        log::lacks(s, '|'),
    ensures
        log::lacks(model::trim_end(s, CharClass::Whitespace), '|'),
    decreases s.len(),
{
    if s.len() > 0 && model::is_whitespace(s.last()) {
        let rest = s.drop_last();
        assert forall|i: int| 0 <= i < rest.len() implies #[trigger] rest[i] != '|' by {
            assert(s[i] != '|');
        }
        lemma_end_lacks(rest);
    }
}

/// A further line leaves the list as it is, and adds its slug at the end where that is
/// not listed yet.
pub proof fn lists_grow_at_their_end(lines: Seq<Seq<char>>, line: Seq<char>)
    ensures
        ({
            let before = exemplars::slugs_in(lines);
            let after = exemplars::slugs_in(lines.push(line));
            let content = exemplars::line_content(line);
            &&& content.len() == 0 ==> after == before
            &&& before.contains(exemplars::slug(content)) ==> after == before
            &&& content.len() > 0 && !before.contains(exemplars::slug(content)) ==> after
                == before.push(exemplars::slug(content))
        }),
        exemplars::slugs_in(Seq::empty()).len() == 0,
{
    assert(lines.push(line).drop_last() =~= lines);
}

/// A line without a name before its bar, or without a label behind it, says nothing.
pub proof fn origins_need_a_name_and_a_label(name: Seq<char>, label: Seq<char>)
    requires
        is_repository_name(name),
        log::lacks(name, '#'),
        log::lacks(name, '|'),
        texts::is_word(label),
        log::lacks(label, '#'),
    ensures
        origins::origin_line(seq!['|'] + label) is None,
        origins::origin_line(name.push('|')) is None,
        origins::origin_line(name) is None,
{
    reveal(model::is_whitespace);
    reveal_strlit("|");
    assert("|"@ =~= seq!['|']);
    let none = Seq::<char>::empty();
    let unnamed = seq!['|'] + label;
    assert forall|i: int| 0 <= i < unnamed.len() implies #[trigger] unnamed[i] != '#'
        && !model::is_whitespace(unnamed[i]) by {
        if i > 0 {
            assert(unnamed[i] == label[i - 1]);
        }
    }
    assert(log::lacks(unnamed, '#') && texts::is_word(unnamed));
    comments_say_nothing(unnamed, none);
    texts::texts_are_taken_apart(none, '|', label);
    assert(none.push('|') + label =~= unnamed);
    reveal_strlit("https://github.com/");
    reveal_strlit("http://github.com/");
    assert(exemplars::repository_path(none) =~= none);
    assert(exemplars::slug(none).len() == 0) by {
        reveal(model::lowercase);
    }
    let unlabelled = name.push('|');
    assert forall|i: int| 0 <= i < unlabelled.len() implies #[trigger] unlabelled[i] != '#'
        && !model::is_whitespace(unlabelled[i]) by {
        if i < name.len() {
            assert(unlabelled[i] == name[i]);
        }
    }
    assert(log::lacks(unlabelled, '#') && texts::is_word(unlabelled));
    comments_say_nothing(unlabelled, none);
    texts::texts_are_taken_apart(name, '|', none);
    assert(name.push('|') + none =~= unlabelled);
    assert(model::trim(none, CharClass::Whitespace) =~= none);
    comments_say_nothing(name, none);
    model::lemma_lacks(name, "|"@, 0);
}

} // verus!
