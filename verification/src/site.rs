//! Static site generation: a self-contained page with its data embedded.

use crate::double::Double;
use crate::exemplars;
use crate::order;
use crate::order::SortKey;
use crate::origins;
use crate::origins::Origin;
use crate::text;
use crate::text_model as model;
use crate::types;
use crate::types::Project;
use vstd::prelude::*;
use vstd::string::*;

verus! {

/// The file that publishes the custom domain with the page.
pub const CUSTOM_DOMAIN: &'static str = "reru.st\n";

// --- Page --------------------------------------------------------------------

/// JSON as it is embedded in a page: `<` is escaped, so that no tag can begin
/// in it.
pub open spec fn embedded(json: Seq<char>) -> Seq<char> {
    model::replace_char(json, '<', "\\u003c"@)
}

/// Escape JSON for embedding in a page.
pub fn embed_json(json: &str) -> (r: String)
    ensures
        r@ == embedded(json@),
{
    text::replace_char(json, '<', "\\u003c")
}

/// An error of the template engine.
#[verifier::external_type_specification]
#[verifier::external_body]
pub struct ExTemplateError(minijinja::Error);

/// What `minijinja` renders from a template and the values `generated_at`,
/// `project_count` and `data_json`; nothing where it reports an error.
pub uninterp spec fn rendered(
    template: Seq<char>,
    generated_at: Seq<char>,
    project_count: nat,
    data_json: Seq<char>,
) -> Option<Seq<char>>;

/// Load a template into a `minijinja::Environment` and render it with
/// `minijinja::Template::render`. What comes out, or whether an error does, is a
/// function of the template and of the values.
#[verifier::external_body]
fn render_template(
    template: &str,
    generated_at: &str,
    project_count: usize,
    data_json: &str,
) -> (r: Result<String, minijinja::Error>)
    ensures
        match r {
            Ok(html) => rendered(template@, generated_at@, project_count as nat, data_json@)
                == Some(html@),
            Err(_) => rendered(
                template@,
                generated_at@,
                project_count as nat,
                data_json@,
            ) is None,
        },
{
    let mut env = minijinja::Environment::new();
    env.add_template("index", template)?;
    let values = minijinja::Value::from_iter(
        [
            ("generated_at", minijinja::Value::from(generated_at)),
            ("project_count", minijinja::Value::from(project_count)),
            ("data_json", minijinja::Value::from(data_json)),
        ],
    );
    env.get_template("index")?.render(values)
}

/// The page cannot be rendered.
#[derive(Debug, Clone, Copy, PartialEq, Eq, Structural)]
pub enum SiteError {
    Template,
}

/// The page of a site, from its template and the JSON of its projects.
pub fn render_page(template: &str, generated_at: &str, project_count: usize, json: &str) -> (r:
    Result<String, SiteError>)
    ensures
        match r {
            Ok(html) => rendered(
                template@,
                generated_at@,
                project_count as nat,
                embedded(json@),
            ) == Some(html@),
            Err(e) => e == SiteError::Template && rendered(
                template@,
                generated_at@,
                project_count as nat,
                embedded(json@),
            ) is None,
        },
{
    let data_json = embed_json(json);
    match render_template(template, generated_at, project_count, data_json.as_str()) {
        Ok(html) => Ok(html),
        Err(_) => Err(SiteError::Template),
    }
}

// --- Order of the projects ---------------------------------------------------

/// A project that is shown.
pub open spec fn is_shown(p: Project) -> bool {
    p.project_kind@ != "neither"@ && p.confidence.above(Double { bits: 0 })
}

/// The projects that are shown, among the first `n`.
pub open spec fn shown(projects: Seq<Project>, n: int) -> Seq<int>
    decreases n,
{
    if n <= 0 {
        Seq::empty()
    } else if is_shown(projects[n - 1]) {
        shown(projects, n - 1).push(n - 1)
    } else {
        shown(projects, n - 1)
    }
}

pub open spec fn flag(b: bool) -> int {
    if b {
        1
    } else {
        0
    }
}

/// Exemplars first, then rewrites, then confidence / stars.
pub open spec fn site_key(p: Project, exemplar_slugs: Seq<Seq<char>>) -> SortKey {
    SortKey {
        first: (0 - flag(exemplar_slugs.contains(exemplars::slug(p.repo_url@)))) as i128,
        second: (0 - flag(p.project_kind@ == "rewrite"@)) as i128,
        third: (0 - p.confidence.rank()) as i128,
        fourth: (0 - p.stars) as i128,
    }
}

pub open spec fn site_keys(
    projects: Seq<Project>,
    indices: Seq<int>,
    exemplar_slugs: Seq<Seq<char>>,
) -> Seq<SortKey> {
    Seq::new(indices.len(), |i: int| site_key(projects[indices[i]], exemplar_slugs))
}

/// A project as it is shown: marked as an exemplar if it is one, and with its
/// curated origin if it has one.
pub open spec fn shown_as(
    p: Project,
    exemplar_slugs: Seq<Seq<char>>,
    origin_list: Seq<(Seq<char>, Seq<char>)>,
    r: Project,
) -> bool {
    let label = origins::label_of(origin_list, exemplars::slug(p.repo_url@));
    &&& r.exemplar == exemplar_slugs.contains(exemplars::slug(p.repo_url@))
    &&& model::opt_view(r.named_origin) == if label is Some {
        label
    } else {
        model::opt_view(p.named_origin)
    }
    &&& types::same_project(
        r,
        Project { exemplar: r.exemplar, named_origin: r.named_origin, ..p },
    )
}

/// `r` holds the projects that are shown, in their order and as they are shown.
pub open spec fn site_holds(
    projects: Seq<Project>,
    exemplar_slugs: Seq<Seq<char>>,
    origin_list: Seq<(Seq<char>, Seq<char>)>,
    r: Seq<Project>,
) -> bool {
    let indices = shown(projects, projects.len() as int);
    exists|order: Seq<usize>| #[trigger]
        order::orders(
            site_keys(projects, indices, exemplar_slugs),
            order,
            indices.len() as int,
        ) && r.len() == indices.len() && forall|k: int|
            0 <= k < r.len() ==> shown_as(
                projects[indices[order[k] as int]],
                exemplar_slugs,
                origin_list,
                #[trigger] r[k],
            )
}

proof fn lemma_shown_in_range(projects: Seq<Project>, n: int)
    requires
        0 <= n <= projects.len(),
    ensures
        shown(projects, n).len() <= n,
        forall|i: int| 0 <= i < shown(projects, n).len() ==> 0 <= #[trigger] shown(projects, n)[i] < n
            && is_shown(projects[shown(projects, n)[i]]),
    decreases n,
{
    if n > 0 {
        lemma_shown_in_range(projects, n - 1);
    }
}

fn find_shown(projects: &Vec<Project>) -> (r: Vec<usize>)
    ensures
        r@.len() == shown(projects@, projects@.len() as int).len(),
        forall|i: int|
            0 <= i < r@.len() ==> (#[trigger] r@[i]) == shown(
                projects@,
                projects@.len() as int,
            )[i] && r@[i] < projects@.len(),
{
    let mut out: Vec<usize> = Vec::new();
    let mut i: usize = 0;
    while i < projects.len()
        invariant
            i <= projects@.len(),
            out@.len() == shown(projects@, i as int).len(),
            forall|k: int|
                0 <= k < out@.len() ==> (#[trigger] out@[k]) == shown(projects@, i as int)[k]
                    && out@[k] < i,
        decreases projects@.len() - i,
    {
        let p = &projects[i];
        if !text::equal(p.project_kind.as_str(), "neither") && p.confidence.is_above(
            Double { bits: 0 },
        ) {
            out.push(i);
        }
        i += 1;
    }
    out
}

fn make_key(p: &Project, exemplar_slugs: &Vec<String>) -> (r: SortKey)
    ensures
        r == site_key(*p, model::views(exemplar_slugs@)),
{
    let first: i128 = if exemplars::is_exemplar(p.repo_url.as_str(), exemplar_slugs) {
        -1
    } else {
        0
    };
    let second: i128 = if text::equal(p.project_kind.as_str(), "rewrite") {
        -1
    } else {
        0
    };
    SortKey {
        first,
        second,
        third: 0 - p.confidence.signed_rank() as i128,
        fourth: 0 - p.stars as i128,
    }
}

fn show(p: &Project, exemplar_slugs: &Vec<String>, origin_list: &Vec<Origin>) -> (r: Project)
    ensures
        shown_as(*p, model::views(exemplar_slugs@), origins::origin_views(origin_list@), r),
{
    let mut r = p.clone();
    r.exemplar = exemplars::is_exemplar(p.repo_url.as_str(), exemplar_slugs);
    if let Some(label) = origins::lookup_in(origin_list, p.repo_url.as_str()) {
        r.named_origin = Some(label);
    }
    r
}

/// The projects that are shown: exemplars first, then rewrites, then by
/// confidence and stars, each with its marks.
pub fn site_projects(
    projects: &Vec<Project>,
    exemplar_slugs: &Vec<String>,
    origin_list: &Vec<Origin>,
) -> (r: Vec<Project>)
    ensures
        site_holds(
            projects@,
            model::views(exemplar_slugs@),
            origins::origin_views(origin_list@),
            r@,
        ),
{
    let indices = find_shown(projects);
    let ghost slugs = model::views(exemplar_slugs@);
    let ghost wanted = shown(projects@, projects@.len() as int);
    let ghost all_keys = site_keys(projects@, wanted, slugs);
    let mut keys: Vec<SortKey> = Vec::new();
    let mut i: usize = 0;
    while i < indices.len()
        invariant
            i <= indices@.len(),
            indices@.len() == wanted.len(),
            wanted == shown(projects@, projects@.len() as int),
            slugs == model::views(exemplar_slugs@),
            all_keys == site_keys(projects@, wanted, slugs),
            forall|k: int|
                0 <= k < indices@.len() ==> (#[trigger] indices@[k]) == wanted[k] && indices@[k]
                    < projects@.len(),
            keys@ == all_keys.take(i as int),
        decreases indices@.len() - i,
    {
        let at: usize = indices[i];
        assert(indices@[i as int] == wanted[i as int]);
        keys.push(make_key(&projects[at], exemplar_slugs));
        assert(keys@ =~= all_keys.take(i + 1));
        i += 1;
    }
    assert(keys@ =~= all_keys);
    let order = order::stable_order(&keys);
    let mut out: Vec<Project> = Vec::new();
    let mut j: usize = 0;
    while j < order.len()
        invariant
            j <= order@.len(),
            order@.len() == indices@.len(),
            slugs == model::views(exemplar_slugs@),
            forall|k: int| 0 <= k < order@.len() ==> (#[trigger] order@[k]) < indices@.len(),
            forall|k: int|
                0 <= k < indices@.len() ==> (#[trigger] indices@[k]) == wanted[k] && indices@[k]
                    < projects@.len(),
            out@.len() == j,
            forall|k: int|
                0 <= k < j ==> shown_as(
                    projects@[wanted[order@[k] as int]],
                    slugs,
                    origins::origin_views(origin_list@),
                    #[trigger] out@[k],
                ),
        decreases order@.len() - j,
    {
        let at: usize = order[j];
        assert(order@[j as int] < indices@.len());
        let from: usize = indices[at];
        assert(indices@[at as int] == wanted[at as int]);
        out.push(show(&projects[from], exemplar_slugs, origin_list));
        j += 1;
    }
    out
}

// --- Laws --------------------------------------------------------------------

/// Embedded JSON holds no `<`, so that it cannot close the script that holds it.
pub proof fn embedded_json_opens_no_tag(json: Seq<char>)
    ensures
        !embedded(json).contains('<'),
    decreases json.len(),
{
    reveal_strlit("\\u003c");
    if json.len() > 0 {
        embedded_json_opens_no_tag(json.drop_last());
        let before = embedded(json.drop_last());
        assert forall|i: int| 0 <= i < embedded(json).len() implies embedded(json)[i] != '<' by {
            if i < before.len() {
                assert(embedded(json)[i] == before[i]);
                assert(before.contains(before[i]));
            }
        }
    }
}

/// JSON without `<` is embedded as it is.
pub proof fn harmless_json_is_left_alone(json: Seq<char>)
    requires
        !json.contains('<'),
    ensures
        embedded(json) == json,
    decreases json.len(),
{
    if json.len() > 0 {
        assert(json.contains(json.last()));
        assert(!json.drop_last().contains('<')) by {
            if json.drop_last().contains('<') {
                let i = choose|i: int| 0 <= i < json.len() - 1 && json.drop_last()[i] == '<';
                assert(json[i] == '<');
            }
        }
        harmless_json_is_left_alone(json.drop_last());
        assert(json.drop_last().push(json.last()) =~= json);
    }
}

/// On the site no exemplar stands behind a project that is none.
pub proof fn exemplars_are_shown_first(
    projects: Seq<Project>,
    exemplar_slugs: Seq<Seq<char>>,
    origin_list: Seq<(Seq<char>, Seq<char>)>,
    r: Seq<Project>,
    i: int,
    j: int,
)
    requires
        site_holds(projects, exemplar_slugs, origin_list, r),
        0 <= i < j < r.len(),
        r[j].exemplar,
    ensures
        r[i].exemplar,
{
    let indices = shown(projects, projects.len() as int);
    let keys = site_keys(projects, indices, exemplar_slugs);
    let order = choose|order: Seq<usize>| #[trigger]
        order::orders(keys, order, indices.len() as int) && r.len() == indices.len() && forall|
            k: int,
        |
            0 <= k < r.len() ==> shown_as(
                projects[indices[order[k] as int]],
                exemplar_slugs,
                origin_list,
                #[trigger] r[k],
            );
    assert(order::comes_before(keys, order[i] as int, order[j] as int));
    assert(shown_as(
        projects[indices[order[i] as int]],
        exemplar_slugs,
        origin_list,
        r[i],
    ));
    assert(shown_as(
        projects[indices[order[j] as int]],
        exemplar_slugs,
        origin_list,
        r[j],
    ));
}

/// Nothing without provenance or confidence is shown.
pub proof fn only_provenance_is_shown(
    projects: Seq<Project>,
    exemplar_slugs: Seq<Seq<char>>,
    origin_list: Seq<(Seq<char>, Seq<char>)>,
    r: Seq<Project>,
    i: int,
)
    requires
        site_holds(projects, exemplar_slugs, origin_list, r),
        0 <= i < r.len(),
    ensures
        is_shown(r[i]),
{
    let indices = shown(projects, projects.len() as int);
    let keys = site_keys(projects, indices, exemplar_slugs);
    let order = choose|order: Seq<usize>| #[trigger]
        order::orders(keys, order, indices.len() as int) && r.len() == indices.len() && forall|
            k: int,
        |
            0 <= k < r.len() ==> shown_as(
                projects[indices[order[k] as int]],
                exemplar_slugs,
                origin_list,
                #[trigger] r[k],
            );
    lemma_shown_in_range(projects, projects.len() as int);
    assert(order[i] < indices.len());
    assert(shown_as(
        projects[indices[order[i] as int]],
        exemplar_slugs,
        origin_list,
        r[i],
    ));
    assert(is_shown(projects[indices[order[i] as int]]));
}

} // verus!
