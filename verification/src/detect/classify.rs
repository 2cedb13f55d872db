//! Structural-provenance classification: `Rewrite` / `Replacement` / `Neither`.
//!
//! - **Rewrite**: same shipping product migrated to Rust (identity + rising-Rust history).
//! - **Replacement**: new Rust tool / third-party port competing with an external product.
//! - **Neither**: tutorials, toys, API shims, bare phrase bait.

use crate::detect::commits;
use crate::detect::commits::LanguageAnalysis;
use crate::detect::transitions::HistoryAnalysis;
use crate::text;
use crate::text_model as model;
use crate::text_model::CharClass;
use crate::types::{Candidate, Signal};
use vstd::prelude::*;
use vstd::string::*;

verus! {

/// What a project is to the code that it relates to.
#[derive(Debug, Clone, Copy, PartialEq, Eq, Structural)]
pub enum ProjectKind {
    Rewrite,
    Replacement,
    Neither,
}

impl ProjectKind {
    /// The word for a kind.
    pub open spec fn word(self) -> Seq<char> {
        match self {
            ProjectKind::Rewrite => "rewrite"@,
            ProjectKind::Replacement => "replacement"@,
            ProjectKind::Neither => "neither"@,
        }
    }

    pub fn as_str(self) -> (r: &'static str)
        ensures
            r@ == self.word(),
    {
        match self {
            ProjectKind::Rewrite => "rewrite",
            ProjectKind::Replacement => "replacement",
            ProjectKind::Neither => "neither",
        }
    }
}

// --- Phrase tables -----------------------------------------------------------

pub const IN_PLACE: [&'static str; 11] = [
    "rewrite of",
    "rewritten in rust",
    "rewrite in rust",
    "rewritten from",
    "translated to rust",
    "translation of",
    "now written in rust",
    "now in rust",
    "migrated to rust",
    "migration to rust",
    "migrating to rust",
];

pub const EXTERNAL_PORT: [&'static str; 11] = [
    "port of",
    "rust port of",
    "rust port",
    "ported to rust",
    "porting to rust",
    "reimplementation of",
    "reimplementation in rust",
    "reimplemented in rust",
    "reimplementing",
    "pure-rust port",
    "pure rust port",
];

pub const COMPETITOR: [&'static str; 13] = [
    "drop-in replacement",
    "drop in replacement",
    "alternative to",
    "alternative for",
    "replacement for",
    "replacement of",
    "replaces ",
    "successor to",
    "successor of",
    "in place of",
    "instead of",
    "compatible with",
    "clone of",
];

pub const TARGETED: [&'static str; 7] = [
    "rewrite of",
    "rewritten from",
    "port of",
    "rust port of",
    "reimplementation of",
    "reimplementation in rust of",
    "translation of",
];

/// A verb, and the words that end what it moves.
pub const MIGRATION_VERBS: [(&'static str, &'static str); 8] = [
    ("rewrite ", "in rust"),
    ("rewriting ", "in rust"),
    ("rewrote ", "in rust"),
    ("port ", "to rust"),
    ("porting ", "to rust"),
    ("ported ", "to rust"),
    ("migrate ", "to rust"),
    ("migrating ", "to rust"),
];

pub const ORIGIN_MARKERS: [&'static str; 23] = [
    "reimplementation in rust of",
    "reimplementation of",
    "rust port of",
    "port of",
    "rewrite of",
    "rewritten from",
    "translation of",
    "clone of",
    "fork of",
    "drop-in replacement for",
    "drop-in replacement of",
    "drop in replacement for",
    "drop in replacement of",
    "drop-in replacements for",
    "drop-in replacements of",
    "replacement for",
    "replacement of",
    "alternative to",
    "alternative for",
    "successor to",
    "inspired by",
    "based on",
    "compatible with",
];

pub const ORIGIN_STOPS: [&'static str; 28] = [
    ",",
    ".",
    ";",
    ":",
    "(",
    ")",
    "`",
    "\"",
    "/",
    "!",
    "?",
    "\n",
    " — ",
    " - ",
    " using ",
    " written ",
    " built ",
    " with ",
    " that ",
    " which ",
    " in rust",
    " and ",
    " for ",
    " repo ",
    " mentions ",
    " describes ",
    " positions ",
    " is a ",
];

pub const ARTICLES: [&'static str; 3] = ["the ", "a ", "an "];

pub const API_MARKERS: [&'static str; 9] = [
    "std::",
    "::",
    "#[derive",
    "derive(",
    "assert_eq",
    "assert_ne",
    "rust's",
    "rust channel",
    "rust crate",
];

pub const IDENTITY_STOPWORDS: [&'static str; 29] = [
    "rust",
    "rs",
    "next",
    "gen",
    "new",
    "the",
    "and",
    "for",
    "with",
    "from",
    "port",
    "rewrite",
    "rewritten",
    "replacement",
    "drop",
    "in",
    "of",
    "a",
    "an",
    "to",
    "in",
    "engine",
    "lib",
    "crate",
    "sdk",
    "cli",
    "app",
    "bot",
    "tool",
];

pub const SLUG_SUFFIXES: [&'static str; 7] = [
    "-rs",
    "-rust",
    "_rs",
    "_rust",
    "-next",
    "-ng",
    "-next-gen",
];

pub const REWRITE_PHRASES: [&'static str; 4] = [
    " rewritten in rust",
    " rewrite in rust",
    " rewritten from",
    " migrated to rust",
];

pub const FILLER_WORDS: [&'static str; 8] = [
    "high",
    "performance",
    "lightning",
    "fast",
    "experimental",
    "next-generation",
    "next",
    "generation",
];

pub const SELF_REWRITE_MARKERS: [&'static str; 2] = ["rewrite of ", "rewritten from "];

pub const MIGRATION_WORDS: [&'static str; 8] = [
    "rewrite",
    "rewriting",
    "rewritten",
    "port to",
    "ported to",
    "migrate",
    "migrating",
    "migrated",
];

/// Meme and wishlist phrasing.
pub const WISHLIST: [&'static str; 3] = ["rewrite it in", "rewritten in rust?", "riir"];

pub const OWN_CODE: [&'static str; 6] = [
    "rewrite this",
    "rewriting this",
    "rewrite the codebase",
    "rewrite our",
    "migrate this",
    "migrate the codebase",
];

pub const GENERIC_STARTS: [&'static str; 3] = [
    "repo describes",
    "repo mentions",
    "repo positions",
];

/// How search labels begin, besides those that name no origin.
pub const LABEL_STARTS: [&'static str; 3] = [
    "repo references",
    "repo is a ",
    "readme/description mentions",
];

pub const GENERIC_PHRASES: [&'static str; 4] = [
    "named project",
    "repo describes a",
    "repo mentions a",
    "repo positions itself",
];

// --- Phrases -----------------------------------------------------------------

/// A gap between a verb and its end that names something.
pub open spec fn named_gap(gap: Seq<char>) -> bool {
    let g = model::trim(gap, CharClass::Whitespace);
    g.len() > 0 && g != "in"@ && g != "to"@
}

/// "rewrite <tool> in rust": the first verb, the first end behind it, and a
/// named gap between them.
pub open spec fn verb_applies(text: Seq<char>, verb: Seq<char>, end: Seq<char>) -> bool {
    match model::split_once(text, verb) {
        Some(parts) => match model::split_once(parts.1, end) {
            Some(gap) => named_gap(gap.0),
            None => false,
        },
        None => false,
    }
}

pub open spec fn has_migration_verb(text: Seq<char>) -> bool {
    exists|k: int|
        0 <= k < MIGRATION_VERBS@.len() && verb_applies(
            text,
            (#[trigger] MIGRATION_VERBS@[k]).0@,
            MIGRATION_VERBS@[k].1@,
        )
}

pub open spec fn claims_in_place(text: Seq<char>) -> bool {
    model::any_phrase(text, IN_PLACE@) || has_migration_verb(text)
}

pub open spec fn claims_external_port(text: Seq<char>) -> bool {
    model::any_phrase(text, EXTERNAL_PORT@)
}

pub open spec fn claims_competitor(text: Seq<char>) -> bool {
    model::any_phrase(text, COMPETITOR@)
}

pub open spec fn claims_targeted(text: Seq<char>) -> bool {
    model::any_phrase(text, TARGETED@) || has_migration_verb(text)
}

/// Talk of Rust's own interfaces.
pub open spec fn mentions_rust_api(text: Seq<char>) -> bool {
    model::any_phrase(text, API_MARKERS@)
}

fn is_named_gap(gap: &str) -> (r: bool)
    ensures
        r == named_gap(gap@),
{
    let gap = text::trim(gap, CharClass::Whitespace);
    !gap.is_empty() && !text::equal(gap, "in") && !text::equal(gap, "to")
}

/// "rewrite <tool> in rust" / "port <tool> to rust" with a named gap.
pub fn named_migration_verb(text: &str) -> (r: bool)
    ensures
        r == has_migration_verb(text@),
{
    let mut k: usize = 0;
    while k < MIGRATION_VERBS.len()
        invariant
            k <= MIGRATION_VERBS@.len(),
            forall|j: int|
                0 <= j < k ==> !verb_applies(
                    text@,
                    (#[trigger] MIGRATION_VERBS@[j]).0@,
                    MIGRATION_VERBS@[j].1@,
                ),
        decreases MIGRATION_VERBS@.len() - k,
    {
        let (verb, end) = MIGRATION_VERBS[k];
        if let Some(parts) = text::split_once(text, verb) {
            if let Some(gap) = text::split_once(parts.1, end) {
                if is_named_gap(gap.0) {
                    return true;
                }
            }
        }
        k += 1;
    }
    false
}

pub fn in_place(text: &str) -> (r: bool)
    ensures
        r == claims_in_place(text@),
{
    text::any_phrase(text, &IN_PLACE) || named_migration_verb(text)
}

pub fn external_port(text: &str) -> (r: bool)
    ensures
        r == claims_external_port(text@),
{
    text::any_phrase(text, &EXTERNAL_PORT)
}

pub fn competitor(text: &str) -> (r: bool)
    ensures
        r == claims_competitor(text@),
{
    text::any_phrase(text, &COMPETITOR)
}

pub fn targeted_migration(text: &str) -> (r: bool)
    ensures
        r == claims_targeted(text@),
{
    text::any_phrase(text, &TARGETED) || named_migration_verb(text)
}

pub fn rust_api(text: &str) -> (r: bool)
    ensures
        r == mentions_rust_api(text@),
{
    text::any_phrase(text, &API_MARKERS)
}

/// A text, and behind it the details of the first `n` signals in lower case,
/// each after a space.
pub open spec fn with_details(base: Seq<char>, signals: Seq<Signal>, n: int) -> Seq<char>
    decreases n,
{
    if n <= 0 {
        base
    } else {
        with_details(base, signals, n - 1).push(' ') + model::lowercase(signals[n - 1].detail@)
    }
}

/// Description and signal details of a candidate, in lower case.
pub open spec fn all_text(candidate: Candidate) -> Seq<char> {
    with_details(
        lower_description(candidate),
        candidate.signals@,
        candidate.signals@.len() as int,
    )
}

/// The description in lower case, empty when there is none.
pub open spec fn lower_description(candidate: Candidate) -> Seq<char> {
    model::lowercase(model::text_or_empty(candidate.description))
}

fn description_lower(candidate: &Candidate) -> (r: String)
    ensures
        r@ == lower_description(*candidate),
{
    match &candidate.description {
        Some(d) => d.as_str().to_lowercase(),
        None => {
            proof {
                reveal_strlit("");
            }
            assert(""@ =~= Seq::<char>::empty());
            "".to_lowercase()
        },
    }
}

pub fn combined_text(candidate: &Candidate) -> (r: String)
    ensures
        r@ == all_text(*candidate),
{
    let mut out = description_lower(candidate);
    let ghost base = out@;
    let mut i: usize = 0;
    while i < candidate.signals.len()
        invariant
            i <= candidate.signals@.len(),
            out@ == with_details(base, candidate.signals@, i as int),
        decreases candidate.signals@.len() - i,
    {
        out.push(' ');
        let detail = candidate.signals[i].detail.as_str().to_lowercase();
        out.append(detail.as_str());
        i += 1;
    }
    out
}

// --- Named origin ------------------------------------------------------------

/// Some stop of the table stands in `s` at position `i`.
pub open spec fn stop_at(s: Seq<char>, i: int) -> bool {
    exists|k: int|
        0 <= k < ORIGIN_STOPS@.len() && model::matches_at(s, (#[trigger] ORIGIN_STOPS@[k])@, i)
}

/// A name ends at the first stop, or with the text.
pub open spec fn is_name_end(s: Seq<char>, end: int) -> bool {
    &&& 0 <= end <= s.len()
    &&& end == s.len() || stop_at(s, end)
    &&& forall|j: int| 0 <= j < end ==> !stop_at(s, j)
}

pub open spec fn name_end(s: Seq<char>) -> int {
    choose|end: int| is_name_end(s, end)
}

pub open spec fn strip_article(name: Seq<char>, article: Seq<char>) -> Seq<char> {
    if model::starts_with(name, article) {
        name.skip(article.len() as int)
    } else {
        name
    }
}

/// The first `n` articles of the table taken off in turn.
pub open spec fn strip_articles(name: Seq<char>, n: int) -> Seq<char>
    decreases n,
{
    if n <= 0 {
        name
    } else {
        strip_article(strip_articles(name, n - 1), ARTICLES@[n - 1]@)
    }
}

pub open spec fn at_most<A>(s: Seq<A>, n: int) -> Seq<A> {
    if s.len() > n {
        s.take(n)
    } else {
        s
    }
}

/// The name that a text begins with: up to the first stop, without articles,
/// five words at most.
pub open spec fn leading_name(text: Seq<char>) -> Option<Seq<char>> {
    let after = model::trim_start(text, CharClass::NameLead);
    let phrase = model::trim(after.take(name_end(after)), CharClass::Whitespace);
    let name = model::join(at_most(model::words(strip_articles(phrase, 3)), 5), " "@);
    if name.len() == 0 {
        None
    } else {
        Some(name)
    }
}

/// The name behind the first marker in a text.
pub open spec fn name_behind(text: Seq<char>, marker: Seq<char>) -> Option<Seq<char>> {
    match model::split_once(text, marker) {
        Some(parts) => leading_name(parts.1),
        None => None,
    }
}

/// The name behind the first marker, from the `k`-th of the table on, that has
/// a name behind it.
pub open spec fn origin_from(text: Seq<char>, k: int) -> Option<Seq<char>>
    decreases ORIGIN_MARKERS@.len() - k,
{
    if k < 0 || k >= ORIGIN_MARKERS@.len() {
        None
    } else {
        match name_behind(text, ORIGIN_MARKERS@[k]@) {
            Some(name) => Some(name),
            None => origin_from(text, k + 1),
        }
    }
}

/// The project that a text names as its origin.
pub open spec fn origin_in(text: Seq<char>) -> Option<Seq<char>> {
    origin_from(text, 0)
}

pub fn extract_named_origin(text: &str) -> (r: Option<String>)
    ensures
        model::opt_view(r) == origin_in(text@),
{
    let mut k: usize = 0;
    while k < ORIGIN_MARKERS.len()
        invariant
            k <= ORIGIN_MARKERS@.len(),
            origin_in(text@) == origin_from(text@, k as int),
        decreases ORIGIN_MARKERS@.len() - k,
    {
        if let Some(parts) = text::split_once(text, ORIGIN_MARKERS[k]) {
            if let Some(name) = clean_origin(parts.1) {
                return Some(name);
            }
        }
        k += 1;
    }
    None
}

fn find_name_end(s: &str) -> (r: usize)
    ensures
        r == name_end(s@),
        r <= s@.len(),
{
    let mut end: usize = s.unicode_len();
    let mut k: usize = 0;
    while k < ORIGIN_STOPS.len()
        invariant
            k <= ORIGIN_STOPS@.len(),
            end <= s@.len(),
            end == s@.len() || stop_at(s@, end as int),
            forall|m: int, j: int|
                0 <= m < k && 0 <= j < end ==> !(#[trigger] model::matches_at(
                    s@,
                    ORIGIN_STOPS@[m]@,
                    j,
                )),
        decreases ORIGIN_STOPS@.len() - k,
    {
        proof {
            model::lemma_found(s@, ORIGIN_STOPS@[k as int]@);
        }
        if let Some(i) = text::find(s, ORIGIN_STOPS[k]) {
            if i < end {
                assert(model::matches_at(s@, ORIGIN_STOPS@[k as int]@, i as int));
                end = i;
            }
        }
        k += 1;
    }
    proof {
        assert(is_name_end(s@, end as int));
        let c = name_end(s@);
        assert(is_name_end(s@, c));
        if c < end {
            assert(!stop_at(s@, c));
        } else if end < c {
            assert(!stop_at(s@, end as int));
        }
    }
    end
}

fn without_articles(name: &str) -> (r: String)
    ensures
        r@ == strip_articles(name@, 3),
{
    let mut rest = name;
    let mut k: usize = 0;
    while k < ARTICLES.len()
        invariant
            k <= ARTICLES@.len(),
            rest@ == strip_articles(name@, k as int),
        decreases ARTICLES@.len() - k,
    {
        let article = ARTICLES[k];
        if text::starts_with(rest, article) {
            rest = text::suffix_from(rest, article.unicode_len());
        }
        k += 1;
    }
    rest.to_owned()
}

/// The first `n` strings.
fn first_strings(words: &Vec<String>, n: usize) -> (r: Vec<String>)
    ensures
        model::views(r@) == at_most(model::views(words@), n as int),
{
    let mut out: Vec<String> = Vec::new();
    let mut i: usize = 0;
    assert(model::views(out@) =~= model::views(words@).take(0));
    while i < n && i < words.len()
        invariant
            i <= n,
            i <= words@.len(),
            model::views(out@) == model::views(words@).take(i as int),
        decreases words@.len() - i,
    {
        let ghost held = out@;
        out.push(words[i].clone());
        assert(model::views(out@) =~= model::views(held).push(words@[i as int]@));
        assert(model::views(out@) =~= model::views(words@).take(i + 1));
        i += 1;
    }
    assert(model::views(words@).take(words@.len() as int) =~= model::views(words@));
    out
}

pub fn clean_origin(after: &str) -> (r: Option<String>)
    ensures
        model::opt_view(r) == leading_name(after@),
{
    let after = text::trim_start(after, CharClass::NameLead);
    let end: usize = find_name_end(after);
    let phrase = text::trim(text::prefix_to(after, end), CharClass::Whitespace);
    let name = without_articles(phrase);
    let words = first_strings(&text::words(name.as_str()), 5);
    let name = text::join(&words, " ");
    if name.as_str().is_empty() {
        None
    } else {
        Some(name)
    }
}

/// A signal whose wording comes from a search label, not from the project.
pub open spec fn generic_signal(detail: Seq<char>) -> bool {
    generic_wording(model::lowercase(detail))
}

/// Wording of a search label, in lower case.
pub open spec fn generic_wording(d: Seq<char>) -> bool {
    model::any_phrase(d, GENERIC_PHRASES@) || exists|k: int|
        0 <= k < GENERIC_STARTS@.len() && model::starts_with(d, (#[trigger] GENERIC_STARTS@[k])@)
}

/// Whether a text in lower case has the wording of a search label.
pub fn is_generic_wording(d: &str) -> (r: bool)
    ensures
        r == generic_wording(d@),
{
    if text::any_phrase(d, &GENERIC_PHRASES) {
        return true;
    }
    let mut k: usize = 0;
    while k < GENERIC_STARTS.len()
        invariant
            k <= GENERIC_STARTS@.len(),
            !model::any_phrase(d@, GENERIC_PHRASES@),
            forall|j: int|
                0 <= j < k ==> !model::starts_with(d@, (#[trigger] GENERIC_STARTS@[j])@),
        decreases GENERIC_STARTS@.len() - k,
    {
        if text::starts_with(d, GENERIC_STARTS[k]) {
            return true;
        }
        k += 1;
    }
    false
}

pub fn is_generic_origin_signal(detail: &str) -> (r: bool)
    ensures
        r == generic_signal(detail@),
{
    let d = detail.to_lowercase();
    is_generic_wording(d.as_str())
}

/// The origin that a signal names, unless its wording is generic.
pub open spec fn signal_origin(signal: Signal) -> Option<Seq<char>> {
    if generic_signal(signal.detail@) {
        None
    } else {
        origin_in(model::lowercase(signal.detail@))
    }
}

/// The origin that the first signal from the `k`-th on names.
pub open spec fn signals_origin(signals: Seq<Signal>, k: int) -> Option<Seq<char>>
    decreases signals.len() - k,
{
    if k < 0 || k >= signals.len() {
        None
    } else {
        match signal_origin(signals[k]) {
            Some(name) => Some(name),
            None => signals_origin(signals, k + 1),
        }
    }
}

/// The origin of a candidate: what its description names, or else what a
/// signal names.
pub open spec fn origin_of(candidate: Candidate) -> Option<Seq<char>> {
    let described = match candidate.description {
        Some(d) => origin_in(model::lowercase(d@)),
        None => None,
    };
    match described {
        Some(name) => Some(name),
        None => signals_origin(candidate.signals@, 0),
    }
}

fn extract_origin_from_candidate(candidate: &Candidate) -> (r: Option<String>)
    ensures
        model::opt_view(r) == origin_of(*candidate),
{
    if let Some(desc) = &candidate.description {
        let lower = desc.as_str().to_lowercase();
        if let Some(origin) = extract_named_origin(lower.as_str()) {
            return Some(origin);
        }
    }
    let mut i: usize = 0;
    while i < candidate.signals.len()
        invariant
            i <= candidate.signals@.len(),
            origin_of(*candidate) == signals_origin(candidate.signals@, i as int),
        decreases candidate.signals@.len() - i,
    {
        let detail = candidate.signals[i].detail.as_str();
        if !is_generic_origin_signal(detail) {
            let lower = detail.to_lowercase();
            if let Some(origin) = extract_named_origin(lower.as_str()) {
                return Some(origin);
            }
        }
        i += 1;
    }
    None
}

pub fn named_origin(candidate: &Candidate) -> (r: Option<String>)
    ensures
        model::opt_view(r) == origin_of(*candidate),
{
    extract_origin_from_candidate(candidate)
}

/// Wording of any search label, in lower case.
pub open spec fn label_wording(d: Seq<char>) -> bool {
    generic_wording(d) || exists|k: int|
        0 <= k < LABEL_STARTS@.len() && model::starts_with(d, (#[trigger] LABEL_STARTS@[k])@)
}

/// Whether a text in lower case has the wording of any search label.
pub fn is_label_wording(d: &str) -> (r: bool)
    ensures
        r == label_wording(d@),
{
    if is_generic_wording(d) {
        return true;
    }
    let mut k: usize = 0;
    while k < LABEL_STARTS.len()
        invariant
            k <= LABEL_STARTS@.len(),
            !generic_wording(d@),
            forall|j: int| 0 <= j < k ==> !model::starts_with(d@, (#[trigger] LABEL_STARTS@[j])@),
        decreases LABEL_STARTS@.len() - k,
    {
        if text::starts_with(d, LABEL_STARTS[k]) {
            return true;
        }
        k += 1;
    }
    false
}

/// A text that speaks of replacing or migrating some tool.
pub open spec fn targets_tool(text: Seq<char>) -> bool {
    claims_competitor(text) || claims_targeted(text)
}

/// A text that advertises replacing or migrating an existing tool.
pub open spec fn advertises_rewrite(text: Seq<char>) -> bool {
    targets_tool(text) || claims_in_place(text)
}

/// The description, or a repository or pull-request signal, advertises it.
pub open spec fn strong_signal(candidate: Candidate) -> bool {
    advertises_rewrite(lower_description(candidate)) || exists|i: int|
        0 <= i < candidate.signals@.len() && signal_advertises(#[trigger] candidate.signals@[i])
}

/// Wording of a signal, in lower case, that advertises it. What a search label
/// says of a rewrite is no wording of the project: such a label counts only
/// where it speaks of a tool.
pub open spec fn wording_advertises(d: Seq<char>) -> bool {
    if label_wording(d) {
        targets_tool(d)
    } else {
        advertises_rewrite(d)
    }
}

/// A search label that speaks of no tool.
pub open spec fn is_bare_label(detail: Seq<char>) -> bool {
    label_wording(model::lowercase(detail)) && !targets_tool(model::lowercase(detail))
}

pub open spec fn signal_advertises(s: Signal) -> bool {
    (s.kind@ == "repo-search"@ || s.kind@ == "pull-request"@) && wording_advertises(
        model::lowercase(s.detail@),
    )
}

/// Whether a text in lower case advertises replacing or migrating a tool.
pub fn advertises(text: &str) -> (r: bool)
    ensures
        r == advertises_rewrite(text@),
{
    competitor(text) || targeted_migration(text) || in_place(text)
}

/// Whether the wording of a signal, in lower case, advertises it.
pub fn signal_wording_advertises(d: &str) -> (r: bool)
    ensures
        r == wording_advertises(d@),
{
    competitor(d) || targeted_migration(d) || (!is_label_wording(d) && in_place(d))
}

/// True when the repo advertises replacing/migrating a specific existing tool.
pub fn has_strong_rewrite_signal(candidate: &Candidate) -> (r: bool)
    ensures
        r == strong_signal(*candidate),
{
    let description = description_lower(candidate);
    if advertises(description.as_str()) {
        return true;
    }
    let mut i: usize = 0;
    while i < candidate.signals.len()
        invariant
            i <= candidate.signals@.len(),
            forall|j: int| 0 <= j < i ==> !signal_advertises(#[trigger] candidate.signals@[j]),
        decreases candidate.signals@.len() - i,
    {
        let s = &candidate.signals[i];
        if text::equal(s.kind.as_str(), "repo-search") || text::equal(
            s.kind.as_str(),
            "pull-request",
        ) {
            let detail = s.detail.as_str().to_lowercase();
            if signal_wording_advertises(detail.as_str()) {
                return true;
            }
        }
        i += 1;
    }
    assert(!advertises_rewrite(lower_description(*candidate)));
    false
}

// --- Identity continuity -----------------------------------------------------

/// A token that says which product is meant.
pub open spec fn is_significant(token: Seq<char>) -> bool {
    model::utf8_len(token) >= 3 && !model::any_equal(token, IDENTITY_STOPWORDS@)
}

pub open spec fn keep_significant(pieces: Seq<Seq<char>>) -> Seq<Seq<char>>
    decreases pieces.len(),
{
    if pieces.len() == 0 {
        pieces
    } else if is_significant(pieces.last()) {
        keep_significant(pieces.drop_last()).push(pieces.last())
    } else {
        keep_significant(pieces.drop_last())
    }
}

/// The significant tokens of a text in lower case.
pub open spec fn tokens_in(lower: Seq<char>) -> Seq<Seq<char>> {
    keep_significant(model::split(lower, CharClass::NotAlphanumeric))
}

/// The significant tokens of a text, in lower case.
pub open spec fn tokens_of(s: Seq<char>) -> Seq<Seq<char>> {
    tokens_in(model::lowercase(s))
}

/// A stem: long enough to stand for a longer token that begins with it.
pub open spec fn same_stem(t: Seq<char>, u: Seq<char>) -> bool {
    model::utf8_len(t) >= 6 && model::utf8_len(u) >= 6 && (model::starts_with(u, t)
        || model::starts_with(t, u))
}

pub open spec fn tokens_agree(t: Seq<char>, u: Seq<char>) -> bool {
    t == u || same_stem(t, u)
}

/// Some token of one list agrees with some token of the other.
pub open spec fn overlap(a: Seq<Seq<char>>, b: Seq<Seq<char>>) -> bool {
    exists|i: int, j: int|
        0 <= i < a.len() && 0 <= j < b.len() && #[trigger] tokens_agree(a[i], b[j])
}

/// The product's name, from the `k`-th suffix of the table on: the name without
/// the first suffix whose removal leaves at least three bytes.
pub open spec fn strip_slug(name: Seq<char>, k: int) -> Seq<char>
    decreases SLUG_SUFFIXES@.len() - k,
{
    if k < 0 || k >= SLUG_SUFFIXES@.len() {
        name
    } else {
        let suffix = SLUG_SUFFIXES@[k]@;
        let stripped = name.take(name.len() - suffix.len());
        if model::ends_with(name, suffix) && model::utf8_len(stripped) >= 3 {
            stripped
        } else {
            strip_slug(name, k + 1)
        }
    }
}

pub open spec fn slug_of(full_name: Seq<char>) -> Seq<char> {
    strip_slug(model::lowercase(model::after_last(full_name, '/')), 0)
}

/// The significant tokens of the owner's name.
pub open spec fn owner_tokens_of(full_name: Seq<char>) -> Seq<Seq<char>> {
    tokens_of(model::lowercase(model::before_first(full_name, '/')))
}

/// The letters and digits of a text.
pub open spec fn compact(s: Seq<char>) -> Seq<char> {
    model::without(s, CharClass::NotAlphanumeric)
}

/// Equal, or one a prefix of the other, once reduced to letters and digits.
pub open spec fn compact_match(a: Seq<char>, b: Seq<char>, min: nat) -> bool {
    let ca = compact(a);
    let cb = compact(b);
    model::utf8_len(ca) >= min && model::utf8_len(cb) >= min && (ca == cb || model::starts_with(
        ca,
        cb,
    ) || model::starts_with(cb, ca))
}

/// A word before a rewrite phrase that names no product.
pub open spec fn is_filler(word: Seq<char>) -> bool {
    let w = model::trim(word, CharClass::NotAlphanumeric);
    model::any_equal(w, IDENTITY_STOPWORDS@) || model::any_equal(w, FILLER_WORDS@)
}

pub open spec fn skip_fillers(words: Seq<Seq<char>>) -> Seq<Seq<char>>
    decreases words.len(),
{
    if words.len() > 0 && is_filler(words[0]) {
        skip_fillers(words.drop_first())
    } else {
        words
    }
}

pub open spec fn at_most_last<A>(s: Seq<A>, n: int) -> Seq<A> {
    if s.len() > n {
        s.skip(s.len() - n)
    } else {
        s
    }
}

pub open spec fn trimmed_words(words: Seq<Seq<char>>) -> Seq<Seq<char>> {
    Seq::new(words.len(), |i: int| model::trim(words[i], CharClass::NotAlphanumericOrDash))
}

/// The product that the last words of a text name.
pub open spec fn product_at_end(before: Seq<char>) -> Option<Seq<char>> {
    let named = skip_fillers(at_most_last(model::words(before), 4));
    let phrase = model::join(model::nonempty(trimmed_words(named)), " "@);
    if phrase.len() == 0 {
        None
    } else {
        Some(phrase)
    }
}

/// The product named before the first rewrite phrase, from the `k`-th of the
/// table on, that has one.
pub open spec fn product_before(text: Seq<char>, k: int) -> Option<Seq<char>>
    decreases REWRITE_PHRASES@.len() - k,
{
    if k < 0 || k >= REWRITE_PHRASES@.len() {
        None
    } else {
        let here = match model::split_once(text, REWRITE_PHRASES@[k]@) {
            Some(parts) => product_at_end(parts.0),
            None => None,
        };
        match here {
            Some(product) => Some(product),
            None => product_before(text, k + 1),
        }
    }
}

/// A name that may stand for the product with this slug and owner.
pub open spec fn name_fits(
    name: Seq<char>,
    slug: Seq<char>,
    slug_tokens: Seq<Seq<char>>,
    owner_tokens: Seq<Seq<char>>,
) -> bool {
    let dashed = model::replace_char(name, ' ', "-"@);
    ||| overlap(tokens_of(name), slug_tokens)
    ||| overlap(tokens_of(name), owner_tokens)
    ||| model::contains(dashed, slug)
    ||| model::contains(slug, dashed)
    ||| compact_match(name, slug, 5)
}

/// What a signal says behind its "label: ", or all of it.
pub open spec fn title_body(detail: Seq<char>) -> Seq<char> {
    match model::split_once(detail, ": "@) {
        Some(parts) => if parts.1.len() > 0 {
            parts.1
        } else {
            detail
        },
        None => detail,
    }
}

pub open spec fn lower_title(detail: Seq<char>) -> Seq<char> {
    model::lowercase(title_body(detail))
}

/// A title in lower case that speaks of a migration to Rust.
pub open spec fn titles_migration(title: Seq<char>) -> bool {
    model::contains(title, "rust"@) && model::any_phrase(title, MIGRATION_WORDS@)
}

/// A title in lower case that is a meme or a wish.
pub open spec fn titles_wish(title: Seq<char>) -> bool {
    model::any_phrase(title, WISHLIST@)
}

/// A title in lower case, with its tokens, that speaks of this product, or of its
/// own code and not as a wish.
pub open spec fn titles_product(
    title: Seq<char>,
    title_tokens: Seq<Seq<char>>,
    slug: Seq<char>,
    slug_tokens: Seq<Seq<char>>,
    owner_tokens: Seq<Seq<char>>,
) -> bool {
    ||| overlap(title_tokens, slug_tokens)
    ||| overlap(title_tokens, owner_tokens)
    ||| model::utf8_len(compact(slug)) >= 4 && model::contains(compact(title), compact(slug))
    ||| !titles_wish(title) && model::any_phrase(title, OWN_CODE@)
}

/// A signal whose title speaks of a migration to Rust.
pub open spec fn discusses_migration(detail: Seq<char>) -> bool {
    titles_migration(lower_title(detail))
}

pub open spec fn is_wishlist(detail: Seq<char>) -> bool {
    titles_wish(lower_title(detail))
}

/// A signal whose title speaks of the migration of this product.
pub open spec fn migrates_product(
    detail: Seq<char>,
    slug: Seq<char>,
    slug_tokens: Seq<Seq<char>>,
    owner_tokens: Seq<Seq<char>>,
) -> bool {
    discusses_migration(detail) && titles_product(
        lower_title(detail),
        tokens_of(lower_title(detail)),
        slug,
        slug_tokens,
        owner_tokens,
    )
}

pub open spec fn is_discussion_kind(kind: Seq<char>) -> bool {
    kind == "pull-request"@ || kind == "issue"@
}

/// Behind some self-rewrite marker stands a name that overlaps the slug.
pub open spec fn rewrites_itself(text: Seq<char>, slug_tokens: Seq<Seq<char>>) -> bool {
    exists|k: int|
        0 <= k < SELF_REWRITE_MARKERS@.len() && marker_names(
            text,
            (#[trigger] SELF_REWRITE_MARKERS@[k])@,
            slug_tokens,
        )
}

pub open spec fn marker_names(
    text: Seq<char>,
    marker: Seq<char>,
    slug_tokens: Seq<Seq<char>>,
) -> bool {
    match name_behind(text, marker) {
        Some(name) => overlap(tokens_of(name), slug_tokens),
        None => false,
    }
}

/// The repository is the product that is being migrated.
pub open spec fn is_same_product(candidate: Candidate) -> bool {
    let text = all_text(candidate);
    let slug = slug_of(candidate.full_name@);
    let slug_tokens = tokens_of(slug);
    let owner_tokens = owner_tokens_of(candidate.full_name@);
    ||| match product_before(text, 0) {
        Some(product) => name_fits(product, slug, slug_tokens, owner_tokens),
        None => false,
    }
    ||| match origin_of(candidate) {
        Some(origin) => overlap(tokens_of(origin), slug_tokens) || overlap(
            tokens_of(origin),
            owner_tokens,
        ) || compact_match(origin, slug, 6),
        None => false,
    }
    ||| rewrites_itself(text, slug_tokens)
    ||| exists|i: int|
        0 <= i < candidate.signals@.len() && signal_migrates(
            #[trigger] candidate.signals@[i],
            slug,
            slug_tokens,
            owner_tokens,
        )
}

pub open spec fn signal_migrates(
    s: Signal,
    slug: Seq<char>,
    slug_tokens: Seq<Seq<char>>,
    owner_tokens: Seq<Seq<char>>,
) -> bool {
    is_discussion_kind(s.kind@) && migrates_product(s.detail@, slug, slug_tokens, owner_tokens)
}

pub fn significant_tokens(s: &str) -> (r: Vec<String>)
    ensures
        model::views(r@) == tokens_of(s@),
{
    let lower = s.to_lowercase();
    lower_tokens(lower.as_str())
}

/// The significant tokens of a text in lower case.
pub fn lower_tokens(lower: &str) -> (r: Vec<String>)
    ensures
        model::views(r@) == tokens_in(lower@),
{
    let pieces = text::split(lower, CharClass::NotAlphanumeric);
    let ghost all = model::views(pieces@);
    let mut out: Vec<String> = Vec::new();
    let mut i: usize = 0;
    assert(model::views(out@) =~= keep_significant(all.take(0)));
    while i < pieces.len()
        invariant
            i <= pieces@.len(),
            all == model::views(pieces@),
            model::views(out@) == keep_significant(all.take(i as int)),
        decreases pieces@.len() - i,
    {
        assert(all.take(i + 1).drop_last() =~= all.take(i as int));
        let token = pieces[i].as_str();
        if text::byte_len(token) >= 3 && !text::any_equal(token, &IDENTITY_STOPWORDS) {
            let ghost held = out@;
            out.push(pieces[i].clone());
            assert(model::views(out@) =~= model::views(held).push(pieces@[i as int]@));
        }
        i += 1;
    }
    assert(all.take(all.len() as int) =~= all);
    out
}

pub fn product_slug(candidate: &Candidate) -> (r: String)
    ensures
        r@ == slug_of(candidate.full_name@),
{
    let name = text::after_last(candidate.full_name.as_str(), '/');
    let lower = name.as_str().to_lowercase();
    strip_slug_suffix(lower.as_str()).to_owned()
}

/// A repository's name in lower case, without the suffix that marks a rewrite.
pub fn strip_slug_suffix<'a>(lower: &'a str) -> (r: &'a str)
    ensures
        r@ == strip_slug(lower@, 0),
{
    let mut k: usize = 0;
    while k < SLUG_SUFFIXES.len()
        invariant
            k <= SLUG_SUFFIXES@.len(),
            strip_slug(lower@, 0) == strip_slug(lower@, k as int),
        decreases SLUG_SUFFIXES@.len() - k,
    {
        let suffix = SLUG_SUFFIXES[k];
        if text::ends_with(lower, suffix) {
            let keep: usize = lower.unicode_len() - suffix.unicode_len();
            let stripped = text::prefix_to(lower, keep);
            if text::byte_len(stripped) >= 3 {
                return stripped;
            }
        }
        k += 1;
    }
    lower
}

pub fn compact_alnum(s: &str) -> (r: String)
    ensures
        r@ == compact(s@),
{
    text::without(s, CharClass::NotAlphanumeric)
}

/// Prefix/equality compact match — never `contains`, which false-positives clones.
pub fn compact_identity(a: &str, b: &str, min: usize) -> (r: bool)
    ensures
        r == compact_match(a@, b@, min as nat),
{
    let ca = compact_alnum(a);
    let cb = compact_alnum(b);
    text::byte_len(ca.as_str()) >= min && text::byte_len(cb.as_str()) >= min && (text::equal(
        ca.as_str(),
        cb.as_str(),
    ) || text::starts_with(ca.as_str(), cb.as_str()) || text::starts_with(
        cb.as_str(),
        ca.as_str(),
    ))
}

fn agree(t: &str, u: &str) -> (r: bool)
    ensures
        r == tokens_agree(t@, u@),
{
    // Substantial stems only; require prefix relation (not PathPicker ⊂ FastPathPicker).
    text::equal(t, u) || (text::byte_len(t) >= 6 && text::byte_len(u) >= 6 && (text::starts_with(
        u,
        t,
    ) || text::starts_with(t, u)))
}

pub fn tokens_overlap(a: &Vec<String>, b: &Vec<String>) -> (r: bool)
    ensures
        r == overlap(model::views(a@), model::views(b@)),
{
    let ghost va = model::views(a@);
    let ghost vb = model::views(b@);
    let mut i: usize = 0;
    while i < a.len()
        invariant
            i <= a@.len(),
            va == model::views(a@),
            vb == model::views(b@),
            forall|x: int, y: int|
                0 <= x < i && 0 <= y < vb.len() ==> !(#[trigger] tokens_agree(va[x], vb[y])),
        decreases a@.len() - i,
    {
        let mut j: usize = 0;
        while j < b.len()
            invariant
                i < a@.len(),
                j <= b@.len(),
                va == model::views(a@),
                vb == model::views(b@),
                forall|y: int| 0 <= y < j ==> !(#[trigger] tokens_agree(va[i as int], vb[y])),
            decreases b@.len() - j,
        {
            if agree(a[i].as_str(), b[j].as_str()) {
                assert(tokens_agree(va[i as int], vb[j as int]));
                return true;
            }
            j += 1;
        }
        i += 1;
    }
    false
}

fn filler(word: &str) -> (r: bool)
    ensures
        r == is_filler(word@),
{
    let w = text::trim(word, CharClass::NotAlphanumeric);
    text::any_equal(w, &IDENTITY_STOPWORDS) || text::any_equal(w, &FILLER_WORDS)
}

fn find_product_at_end(before: &str) -> (r: Option<String>)
    ensures
        model::opt_view(r) == product_at_end(before@),
{
    let words = text::words(before);
    let ghost all = model::views(words@);
    let n: usize = words.len();
    let first: usize = if n > 4 {
        n - 4
    } else {
        0
    };
    let ghost last = at_most_last(all, 4);
    assert(all.skip(0) =~= all);
    assert(last == all.skip(first as int));
    let mut start: usize = first;
    while start < n && filler(words[start].as_str())
        invariant
            start <= n,
            n == words@.len(),
            all == model::views(words@),
            skip_fillers(last) == skip_fillers(all.skip(start as int)),
        decreases n - start,
    {
        assert(all.skip(start as int).drop_first() =~= all.skip(start + 1));
        assert(all.skip(start as int)[0] == words@[start as int]@);
        start += 1;
    }
    let ghost named = all.skip(start as int);
    assert(skip_fillers(last) == named) by {
        if start < n {
            assert(named[0] == words@[start as int]@);
        }
    }
    let mut trimmed: Vec<String> = Vec::new();
    let mut i: usize = start;
    while i < n
        invariant
            start <= i <= n,
            n == words@.len(),
            all == model::views(words@),
            named == all.skip(start as int),
            trimmed@.len() == i - start,
            forall|k: int|
                0 <= k < trimmed@.len() ==> (#[trigger] trimmed@[k])@ == model::trim(
                    named[k],
                    CharClass::NotAlphanumericOrDash,
                ),
        decreases n - i,
    {
        trimmed.push(text::trim(words[i].as_str(), CharClass::NotAlphanumericOrDash).to_owned());
        i += 1;
    }
    assert(model::views(trimmed@) =~= trimmed_words(named));
    let phrase = text::join(&text::nonempty(&trimmed), " ");
    if phrase.as_str().is_empty() {
        None
    } else {
        Some(phrase)
    }
}

pub fn product_before_rewrite_phrase(text: &str) -> (r: Option<String>)
    ensures
        model::opt_view(r) == product_before(text@, 0),
{
    let mut k: usize = 0;
    while k < REWRITE_PHRASES.len()
        invariant
            k <= REWRITE_PHRASES@.len(),
            product_before(text@, 0) == product_before(text@, k as int),
        decreases REWRITE_PHRASES@.len() - k,
    {
        if let Some(parts) = text::split_once(text, REWRITE_PHRASES[k]) {
            if let Some(product) = find_product_at_end(parts.0) {
                return Some(product);
            }
        }
        k += 1;
    }
    None
}

pub fn names_match_product(
    name: &str,
    slug: &str,
    slug_tokens: &Vec<String>,
    owner_tokens: &Vec<String>,
) -> (r: bool)
    ensures
        r == name_fits(name@, slug@, model::views(slug_tokens@), model::views(owner_tokens@)),
{
    let name_tokens = significant_tokens(name);
    let dashed = text::replace_char(name, ' ', "-");
    tokens_overlap(&name_tokens, slug_tokens) || tokens_overlap(&name_tokens, owner_tokens)
        || text::contains(dashed.as_str(), slug) || text::contains(slug, dashed.as_str())
        || compact_identity(name, slug, 5)
}

fn names_itself(text: &str, slug_tokens: &Vec<String>) -> (r: bool)
    ensures
        r == rewrites_itself(text@, model::views(slug_tokens@)),
{
    let mut k: usize = 0;
    while k < SELF_REWRITE_MARKERS.len()
        invariant
            k <= SELF_REWRITE_MARKERS@.len(),
            forall|j: int|
                0 <= j < k ==> !marker_names(
                    text@,
                    (#[trigger] SELF_REWRITE_MARKERS@[j])@,
                    model::views(slug_tokens@),
                ),
        decreases SELF_REWRITE_MARKERS@.len() - k,
    {
        if let Some(parts) = text::split_once(text, SELF_REWRITE_MARKERS[k]) {
            if let Some(name) = clean_origin(parts.1) {
                if tokens_overlap(&significant_tokens(name.as_str()), slug_tokens) {
                    return true;
                }
            }
        }
        k += 1;
    }
    false
}

/// True when this repo *is* the shipping product being migrated (not a third-party port).
pub fn has_identity_continuity(candidate: &Candidate) -> (r: bool)
    ensures
        r == is_same_product(*candidate),
{
    let all = combined_text(candidate);
    let slug = product_slug(candidate);
    let slug_tokens = significant_tokens(slug.as_str());
    let owner = text::before_first(candidate.full_name.as_str(), '/');
    let owner = owner.as_str().to_lowercase();
    let owner_tokens = significant_tokens(owner.as_str());

    if let Some(product) = product_before_rewrite_phrase(all.as_str()) {
        if names_match_product(product.as_str(), slug.as_str(), &slug_tokens, &owner_tokens) {
            return true;
        }
    }
    if let Some(origin) = named_origin(candidate) {
        let origin_tokens = significant_tokens(origin.as_str());
        if tokens_overlap(&origin_tokens, &slug_tokens) || tokens_overlap(
            &origin_tokens,
            &owner_tokens,
        ) || compact_identity(origin.as_str(), slug.as_str(), 6) {
            return true;
        }
    }
    if names_itself(all.as_str(), &slug_tokens) {
        return true;
    }
    migration_signal(candidate, slug.as_str(), &slug_tokens, &owner_tokens)
}

/// Some pull request or issue migrates the product.
fn migration_signal(
    candidate: &Candidate,
    slug: &str,
    slug_tokens: &Vec<String>,
    owner_tokens: &Vec<String>,
) -> (r: bool)
    ensures
        r == exists|i: int|
            0 <= i < candidate.signals@.len() && signal_migrates(
                #[trigger] candidate.signals@[i],
                slug@,
                model::views(slug_tokens@),
                model::views(owner_tokens@),
            ),
{
    let mut i: usize = 0;
    while i < candidate.signals.len()
        invariant
            i <= candidate.signals@.len(),
            forall|j: int|
                0 <= j < i ==> !signal_migrates(
                    #[trigger] candidate.signals@[j],
                    slug@,
                    model::views(slug_tokens@),
                    model::views(owner_tokens@),
                ),
        decreases candidate.signals@.len() - i,
    {
        let s = &candidate.signals[i];
        if discussion_kind(s.kind.as_str()) && signal_is_product_migration(
            s.detail.as_str(),
            slug,
            slug_tokens,
            owner_tokens,
        ) {
            return true;
        }
        i += 1;
    }
    false
}

fn discussion_kind(kind: &str) -> (r: bool)
    ensures
        r == is_discussion_kind(kind@),
{
    text::equal(kind, "pull-request") || text::equal(kind, "issue")
}

pub fn signal_title_body<'a>(detail: &'a str) -> (r: &'a str)
    ensures
        r@ == title_body(detail@),
{
    if let Some(parts) = text::split_once(detail, ": ") {
        if !parts.1.is_empty() {
            return parts.1;
        }
    }
    detail
}

pub fn signal_is_migration_discussion(detail: &str) -> (r: bool)
    ensures
        r == discusses_migration(detail@),
{
    let title = signal_title_body(detail).to_lowercase();
    title_is_migration(title.as_str())
}

/// Whether a title in lower case speaks of a migration to Rust.
pub fn title_is_migration(title: &str) -> (r: bool)
    ensures
        r == titles_migration(title@),
{
    text::contains(title, "rust") && text::any_phrase(title, &MIGRATION_WORDS)
}

/// Whether a title in lower case, with its tokens, speaks of this product, or of
/// its own code and not as a wish.
pub fn title_is_of_product(
    title: &str,
    title_tokens: &Vec<String>,
    slug: &str,
    slug_tokens: &Vec<String>,
    owner_tokens: &Vec<String>,
) -> (r: bool)
    ensures
        r == titles_product(
            title@,
            model::views(title_tokens@),
            slug@,
            model::views(slug_tokens@),
            model::views(owner_tokens@),
        ),
{
    if tokens_overlap(title_tokens, slug_tokens) || tokens_overlap(title_tokens, owner_tokens) {
        return true;
    }
    let compact_slug = compact_alnum(slug);
    let compact_title = compact_alnum(title);
    if text::byte_len(compact_slug.as_str()) >= 4 && text::contains(
        compact_title.as_str(),
        compact_slug.as_str(),
    ) {
        return true;
    }
    !text::any_phrase(title, &WISHLIST) && text::any_phrase(title, &OWN_CODE)
}

pub fn signal_is_product_migration(
    detail: &str,
    slug: &str,
    slug_tokens: &Vec<String>,
    owner_tokens: &Vec<String>,
) -> (r: bool)
    ensures
        r == migrates_product(
            detail@,
            slug@,
            model::views(slug_tokens@),
            model::views(owner_tokens@),
        ),
{
    let title = signal_title_body(detail).to_lowercase();
    if !title_is_migration(title.as_str()) {
        return false;
    }
    let title_tokens = significant_tokens(title.as_str());
    title_is_of_product(title.as_str(), &title_tokens, slug, slug_tokens, owner_tokens)
}

fn wishlist(detail: &str) -> (r: bool)
    ensures
        r == is_wishlist(detail@),
{
    let title = signal_title_body(detail).to_lowercase();
    text::any_phrase(title.as_str(), &WISHLIST)
}

// --- Classification ----------------------------------------------------------

/// The language that the sources displaced is a real application language.
pub open spec fn displaced_real_language(analysis: LanguageAnalysis) -> bool {
    match analysis.original_language {
        Some(language) => !commits::is_noise(language@),
        None => false,
    }
}

/// The history shows a strong shift away from a real application language.
pub open spec fn has_strong_history(history: HistoryAnalysis) -> bool {
    history.strong_transition && match history.from_language {
        Some(language) => !commits::is_noise(language@),
        None => false,
    }
}

pub open spec fn is_migration_signal(s: Signal) -> bool {
    is_discussion_kind(s.kind@) && discusses_migration(s.detail@) && !is_wishlist(s.detail@)
}

/// Some pull request or issue discusses a migration to Rust, and not as a wish.
pub open spec fn discussed_migration(candidate: Candidate) -> bool {
    exists|i: int|
        0 <= i < candidate.signals@.len() && is_migration_signal(#[trigger] candidate.signals@[i])
}

/// The candidate's text, or the origin that it names, speaks of Rust's own
/// interfaces.
pub open spec fn is_api_shim(candidate: Candidate) -> bool {
    mentions_rust_api(all_text(candidate)) || match origin_of(candidate) {
        Some(origin) => mentions_rust_api(origin),
        None => false,
    }
}

/// What classification rests on.
#[derive(Debug, Clone, Copy, PartialEq, Eq, Structural)]
pub struct Facts {
    /// The text or the named origin speaks of Rust's own interfaces.
    pub api_shim: bool,
    /// The repository is the product that is being migrated.
    pub identity: bool,
    /// The history shows a strong shift away from a real language.
    pub history: bool,
    /// A migration to Rust was discussed, and not as a wish.
    pub migration_pr: bool,
    /// The text claims a rewrite of its own code.
    pub in_place: bool,
    /// The text claims a port of something else.
    pub external: bool,
    /// The text claims to compete with something else.
    pub competitor: bool,
    /// The text claims the migration of something named.
    pub targeted: bool,
    /// An origin is named.
    pub origin: bool,
    /// The sources displaced a real language.
    pub displaced: bool,
}

/// What is no rewrite, but is framed as a migration or a competitor.
pub open spec fn framed_as_replacement(f: Facts) -> bool {
    ||| f.competitor
    ||| f.external && (f.origin || f.displaced)
    ||| if f.identity {
        f.in_place || f.external
    } else {
        ||| f.history && (f.in_place || f.external)
        ||| f.in_place && (f.displaced || f.targeted)
    }
}

/// The kind that the facts make out.
pub open spec fn kind_from(f: Facts) -> ProjectKind {
    if f.api_shim {
        ProjectKind::Neither
    } else if f.identity && (f.history || f.migration_pr) {
        ProjectKind::Rewrite
    } else if framed_as_replacement(f) {
        ProjectKind::Replacement
    } else {
        ProjectKind::Neither
    }
}

/// The facts of a candidate.
pub open spec fn facts_of(
    candidate: Candidate,
    analysis: LanguageAnalysis,
    history: HistoryAnalysis,
) -> Facts {
    let text = all_text(candidate);
    Facts {
        api_shim: is_api_shim(candidate),
        identity: is_same_product(candidate),
        history: has_strong_history(history),
        migration_pr: discussed_migration(candidate),
        in_place: claims_in_place(text),
        external: claims_external_port(text),
        competitor: claims_competitor(text),
        targeted: claims_targeted(text),
        origin: origin_of(candidate) is Some,
        displaced: displaced_real_language(analysis),
    }
}

/// The kind of a candidate.
pub open spec fn kind_of(
    candidate: Candidate,
    analysis: LanguageAnalysis,
    history: HistoryAnalysis,
) -> ProjectKind {
    kind_from(facts_of(candidate, analysis, history))
}

fn is_real_language(language: &Option<String>) -> (r: bool)
    ensures
        r == match *language {
            Some(l) => !commits::is_noise(l@),
            None => false,
        },
{
    match language {
        Some(l) => commits::is_real_application_language(l.as_str()),
        None => false,
    }
}

pub fn real_displaced_language(analysis: &LanguageAnalysis) -> (r: bool)
    ensures
        r == displaced_real_language(*analysis),
{
    is_real_language(&analysis.original_language)
}

pub fn strong_history(history: &HistoryAnalysis) -> (r: bool)
    ensures
        r == has_strong_history(*history),
{
    history.strong_transition && is_real_language(&history.from_language)
}

/// True when a PR/issue signal discusses a real language migration (not a wishlist meme).
pub fn has_migration_pr(candidate: &Candidate) -> (r: bool)
    ensures
        r == discussed_migration(*candidate),
{
    let mut i: usize = 0;
    while i < candidate.signals.len()
        invariant
            i <= candidate.signals@.len(),
            forall|j: int| 0 <= j < i ==> !is_migration_signal(#[trigger] candidate.signals@[j]),
        decreases candidate.signals@.len() - i,
    {
        let s = &candidate.signals[i];
        if discussion_kind(s.kind.as_str()) && signal_is_migration_discussion(s.detail.as_str())
            && !wishlist(s.detail.as_str()) {
            return true;
        }
        i += 1;
    }
    false
}

/// The facts of a candidate.
pub fn gather_facts(
    candidate: &Candidate,
    analysis: &LanguageAnalysis,
    history: &HistoryAnalysis,
) -> (r: Facts)
    ensures
        r == facts_of(*candidate, *analysis, *history),
{
    let all = combined_text(candidate);
    let origin = named_origin(candidate);
    let origin_is_api = match &origin {
        Some(name) => rust_api(name.as_str()),
        None => false,
    };
    Facts {
        api_shim: rust_api(all.as_str()) || origin_is_api,
        identity: has_identity_continuity(candidate),
        history: strong_history(history),
        migration_pr: has_migration_pr(candidate),
        in_place: in_place(all.as_str()),
        external: external_port(all.as_str()),
        competitor: competitor(all.as_str()),
        targeted: targeted_migration(all.as_str()),
        origin: origin.is_some(),
        displaced: real_displaced_language(analysis),
    }
}

/// The kind that the facts make out.
pub fn decide(f: &Facts) -> (r: ProjectKind)
    ensures
        r == kind_from(*f),
{
    if f.api_shim {
        return ProjectKind::Neither;
    }
    // Same product + (proven history **or** product migration PR).
    if f.identity && (f.history || f.migration_pr) {
        return ProjectKind::Rewrite;
    }
    // Competitor / third-party port / same-product claim without history.
    if (f.competitor || f.external) && (f.origin || f.displaced || f.competitor) {
        return ProjectKind::Replacement;
    }
    if f.history && (f.in_place || f.external) && !f.identity {
        return ProjectKind::Replacement;
    }
    if f.identity && (f.in_place || f.external) {
        return ProjectKind::Replacement;
    }
    if f.in_place && (f.displaced || f.targeted) && !f.identity {
        return ProjectKind::Replacement;
    }
    ProjectKind::Neither
}

/// Classify under identity-continuity provenance.
///
/// `Rewrite` ⟺ identity ∧ (commit-proven rising-Rust history **or** a product
/// migration PR). History alone can miss monorepo transitions (e.g. Bun); a
/// merged "Rewrite X in Rust" / "migrate from Zig to Rust" PR on the product
/// itself is enough when identity already holds.
/// Everything else with migration/competitor framing → `Replacement`.
/// API shims / bare bait → `Neither`.
pub fn classify(
    candidate: &Candidate,
    analysis: &LanguageAnalysis,
    history: &HistoryAnalysis,
) -> (r: ProjectKind)
    ensures
        r == kind_of(*candidate, *analysis, *history),
{
    decide(&gather_facts(candidate, analysis, history))
}

// --- Laws --------------------------------------------------------------------

/// Search labels that speak of no tool make no strong signal of a repository
/// whose description advertises nothing.
pub proof fn bare_labels_are_not_strong(candidate: Candidate)
    requires
        !advertises_rewrite(lower_description(candidate)),
        forall|i: int|
            0 <= i < candidate.signals@.len() ==> is_bare_label(
                (#[trigger] candidate.signals@[i]).detail@,
            ),
    ensures
        !strong_signal(candidate),
{
}

/// Of the verbs that the label of a search for "rewrite in Rust" may hold, only
/// "rewrite" stands in it, and nothing between it and "in rust".
proof fn lemma_mention_has_no_gap(s: Seq<char>)
    requires
        s == "repo mentions \"rewrite in rust\""@,
    ensures
        !verb_applies(s, "rewrite "@, "in rust"@),
        !model::contains(s, "rewrote "@),
        !model::contains(s, "port "@),
{
    reveal_strlit("repo mentions \"rewrite in rust\"");
    reveal_strlit("rewrite ");
    reveal_strlit("rewrote ");
    reveal_strlit("in rust");
    reveal_strlit("port ");
    assert forall|j: int| 0 <= j < s.len() implies (#[trigger] s[j] == 'w' ==> j == 17) && (s[j]
        == 'o' ==> j == 3 || j == 10) by {
        assert(j == 0 || j == 1 || j == 2 || j == 3 || j == 4 || j == 5 || j == 6 || j == 7
            || j == 8 || j == 9 || j == 10 || j == 11 || j == 12 || j == 13 || j == 14 || j == 15
            || j == 16 || j == 17 || j == 18 || j == 19 || j == 20 || j == 21 || j == 22 || j == 23
            || j == 24 || j == 25 || j == 26 || j == 27 || j == 28 || j == 29 || j == 30);
    }
    assert forall|i: int| model::matches_at(s, "rewrite "@, i) implies i == 15 by {
        assert(s.subrange(i, i + 8)[2] == s[i + 2]);
    }
    assert forall|i: int| !model::matches_at(s, "rewrote "@, i) by {
        if model::matches_at(s, "rewrote "@, i) {
            assert(s.subrange(i, i + 8)[2] == s[i + 2]);
            assert(s.subrange(i, i + 8)[4] == s[i + 4]);
        }
    }
    assert forall|i: int| !model::matches_at(s, "port "@, i) by {
        if model::matches_at(s, "port "@, i) {
            assert(s.subrange(i, i + 5)[0] == s[i]);
            assert(s.subrange(i, i + 5)[1] == s[i + 1]);
            assert(s.subrange(i, i + 5)[2] == s[i + 2]);
        }
    }
    assert(s.subrange(15, 23) =~= "rewrite "@);
    model::lemma_find(s, "rewrite "@, 15);
    let rest = s.skip(23);
    assert(rest.subrange(0, 7) =~= "in rust"@);
    model::lemma_find(rest, "in rust"@, 0);
    assert(rest.take(0).len() == 0);
}

/// The label of a search for "rewrite in Rust" speaks of no tool.
proof fn lemma_mention_is_bare()
    ensures
        is_bare_label("repo mentions \"rewrite in Rust\""@),
{
    let detail = "repo mentions \"rewrite in Rust\""@;
    let s = "repo mentions \"rewrite in rust\""@;
    reveal_strlit("repo mentions \"rewrite in Rust\"");
    reveal_strlit("repo mentions \"rewrite in rust\"");
    assert(model::ascii_lowercase(detail) =~= s);
    assert(model::all_ascii(detail));
    model::lemma_lowered_ascii(detail);
    assert(generic_wording(s)) by {
        reveal_strlit("repo mentions");
        assert(s.take(13) =~= "repo mentions"@);
        assert(model::starts_with(s, GENERIC_STARTS@[1]@));
    }
    assert forall|j: int| 0 <= j < s.len() implies #[trigger] s[j] != 'a' && s[j]
        != 'c' && s[j] != 'd' && s[j] != 'f' && s[j] != 'g' && s[j] != 'l' by {
        assert(j == 0 || j == 1 || j == 2 || j == 3 || j == 4 || j == 5 || j == 6 || j == 7
            || j == 8 || j == 9 || j == 10 || j == 11 || j == 12 || j == 13 || j == 14 || j == 15
            || j == 16 || j == 17 || j == 18 || j == 19 || j == 20 || j == 21 || j == 22 || j == 23
            || j == 24 || j == 25 || j == 26 || j == 27 || j == 28 || j == 29 || j == 30);
    }
    assert(!claims_competitor(s)) by {
        reveal_strlit("drop-in replacement");
        model::lemma_lacks(s, "drop-in replacement"@, 0);
        reveal_strlit("drop in replacement");
        model::lemma_lacks(s, "drop in replacement"@, 0);
        reveal_strlit("alternative to");
        model::lemma_lacks(s, "alternative to"@, 0);
        reveal_strlit("alternative for");
        model::lemma_lacks(s, "alternative for"@, 0);
        reveal_strlit("replacement for");
        model::lemma_lacks(s, "replacement for"@, 3);
        reveal_strlit("replacement of");
        model::lemma_lacks(s, "replacement of"@, 3);
        reveal_strlit("replaces ");
        model::lemma_lacks(s, "replaces "@, 3);
        reveal_strlit("successor to");
        model::lemma_lacks(s, "successor to"@, 2);
        reveal_strlit("successor of");
        model::lemma_lacks(s, "successor of"@, 2);
        reveal_strlit("in place of");
        model::lemma_lacks(s, "in place of"@, 4);
        reveal_strlit("instead of");
        model::lemma_lacks(s, "instead of"@, 5);
        reveal_strlit("compatible with");
        model::lemma_lacks(s, "compatible with"@, 0);
        reveal_strlit("clone of");
        model::lemma_lacks(s, "clone of"@, 0);
    }
    assert(!model::any_phrase(s, TARGETED@)) by {
        reveal_strlit("rewrite of");
        model::lemma_lacks(s, "rewrite of"@, 9);
        reveal_strlit("rewritten from");
        model::lemma_lacks(s, "rewritten from"@, 10);
        reveal_strlit("port of");
        model::lemma_lacks(s, "port of"@, 6);
        reveal_strlit("rust port of");
        model::lemma_lacks(s, "rust port of"@, 11);
        reveal_strlit("reimplementation of");
        model::lemma_lacks(s, "reimplementation of"@, 5);
        reveal_strlit("reimplementation in rust of");
        model::lemma_lacks(s, "reimplementation in rust of"@, 5);
        reveal_strlit("translation of");
        model::lemma_lacks(s, "translation of"@, 2);
    }
    assert(!has_migration_verb(s)) by {
        reveal_strlit("rewriting ");
        model::lemma_lacks(s, "rewriting "@, 8);
        reveal_strlit("porting ");
        model::lemma_lacks(s, "porting "@, 6);
        reveal_strlit("ported ");
        model::lemma_lacks(s, "ported "@, 5);
        reveal_strlit("migrate ");
        model::lemma_lacks(s, "migrate "@, 2);
        reveal_strlit("migrating ");
        model::lemma_lacks(s, "migrating "@, 2);
        lemma_mention_has_no_gap(s);
    }
}

/// An incidental hit of a search for "rewrite in Rust" is no strong signal of a
/// repository whose description advertises nothing.
pub proof fn incidental_hits_are_not_strong(candidate: Candidate)
    requires
        !advertises_rewrite(lower_description(candidate)),
        forall|i: int|
            0 <= i < candidate.signals@.len() ==> (#[trigger] candidate.signals@[i]).detail@
                == "repo mentions \"rewrite in Rust\""@,
    ensures
        !strong_signal(candidate),
{
    lemma_mention_is_bare();
    bare_labels_are_not_strong(candidate);
}

/// A rewrite is what is no API shim, continues the product's identity, and shows
/// a strong history or a migration that was discussed: these and no others.
pub proof fn rewrites_have_identity_and_proof(
    candidate: Candidate,
    analysis: LanguageAnalysis,
    history: HistoryAnalysis,
)
    ensures
        kind_of(candidate, analysis, history) == ProjectKind::Rewrite <==> !is_api_shim(candidate)
            && is_same_product(candidate) && (has_strong_history(history) || discussed_migration(
            candidate,
        )),
{
}

/// A candidate that is framed as a competitor, or as a migration of itself, and
/// is neither a rewrite nor an API shim, is a replacement.
pub proof fn competitors_are_replacements(
    candidate: Candidate,
    analysis: LanguageAnalysis,
    history: HistoryAnalysis,
)
    requires
        !is_api_shim(candidate),
        kind_of(candidate, analysis, history) != ProjectKind::Rewrite,
        claims_competitor(all_text(candidate)) || is_same_product(candidate) && claims_in_place(
            all_text(candidate),
        ),
    ensures
        kind_of(candidate, analysis, history) == ProjectKind::Replacement,
{
}

/// A third-party project is never a rewrite, however strong its history.
pub proof fn third_parties_are_no_rewrites(
    candidate: Candidate,
    analysis: LanguageAnalysis,
    history: HistoryAnalysis,
)
    requires
        !is_same_product(candidate),
    ensures
        kind_of(candidate, analysis, history) != ProjectKind::Rewrite,
{
}

/// A candidate whose text frames neither a migration nor a competitor, and which
/// is no rewrite, is neither.
pub proof fn bare_mentions_are_neither(
    candidate: Candidate,
    analysis: LanguageAnalysis,
    history: HistoryAnalysis,
)
    requires
        kind_of(candidate, analysis, history) != ProjectKind::Rewrite,
        !claims_in_place(all_text(candidate)),
        !claims_external_port(all_text(candidate)),
        !claims_competitor(all_text(candidate)),
    ensures
        kind_of(candidate, analysis, history) == ProjectKind::Neither,
{
}

/// A name that is found holds at least one character, so no empty origin is
/// ever reported.
pub proof fn origins_are_never_empty(candidate: Candidate)
    ensures
        origin_of(candidate) matches Some(name) ==> name.len() > 0,
{
    if let Some(d) = candidate.description {
        lemma_origin_not_empty(model::lowercase(d@), 0);
    }
    lemma_signals_origin_not_empty(candidate.signals@, 0);
}

proof fn lemma_origin_not_empty(text: Seq<char>, k: int)
    ensures
        origin_from(text, k) matches Some(name) ==> name.len() > 0,
    decreases ORIGIN_MARKERS@.len() - k,
{
    if 0 <= k < ORIGIN_MARKERS@.len() {
        lemma_origin_not_empty(text, k + 1);
    }
}

proof fn lemma_signals_origin_not_empty(signals: Seq<Signal>, k: int)
    ensures
        signals_origin(signals, k) matches Some(name) ==> name.len() > 0,
    decreases signals.len() - k,
{
    if 0 <= k < signals.len() {
        lemma_origin_not_empty(model::lowercase(signals[k].detail@), 0);
        lemma_signals_origin_not_empty(signals, k + 1);
    }
}

/// Two candidates whose texts have the same lower-case forms: the name behind and
/// before its slashes, the description, and of each signal the detail and its
/// title. The kinds of the signals are the same.
pub open spec fn have_same_lower_case(c: Candidate, d: Candidate) -> bool {
    &&& model::lowercase(model::after_last(c.full_name@, '/')) == model::lowercase(
        model::after_last(d.full_name@, '/'),
    )
    &&& model::lowercase(model::before_first(c.full_name@, '/')) == model::lowercase(
        model::before_first(d.full_name@, '/'),
    )
    &&& c.description is Some == d.description is Some
    &&& lower_description(c) == lower_description(d)
    &&& c.signals@.len() == d.signals@.len()
    &&& forall|i: int|
        0 <= i < c.signals@.len() ==> same_lower_signal(#[trigger] c.signals@[i], d.signals@[i])
}

pub open spec fn same_lower_signal(s: Signal, t: Signal) -> bool {
    &&& s.kind@ == t.kind@
    &&& model::lowercase(s.detail@) == model::lowercase(t.detail@)
    &&& lower_title(s.detail@) == lower_title(t.detail@)
}

proof fn lemma_same_details(base: Seq<char>, c: Candidate, d: Candidate, n: int)
    requires
        have_same_lower_case(c, d),
        n <= c.signals@.len(),
    ensures
        with_details(base, d.signals@, n) == with_details(base, c.signals@, n),
    decreases n,
{
    if n > 0 {
        lemma_same_details(base, c, d, n - 1);
        assert(same_lower_signal(c.signals@[n - 1], d.signals@[n - 1]));
    }
}

proof fn lemma_same_origins(c: Candidate, d: Candidate, k: int)
    requires
        have_same_lower_case(c, d),
        0 <= k <= c.signals@.len(),
    ensures
        signals_origin(d.signals@, k) == signals_origin(c.signals@, k),
    decreases c.signals@.len() - k,
{
    if k < c.signals@.len() {
        lemma_same_origins(c, d, k + 1);
        assert(same_lower_signal(c.signals@[k], d.signals@[k]));
    }
}

/// Whether a repository is the product that is being migrated depends on the
/// lower-case forms of its texts alone.
pub proof fn identity_ignores_case(c: Candidate, d: Candidate)
    requires
        have_same_lower_case(c, d),
    ensures
        is_same_product(c) == is_same_product(d),
{
    lemma_same_details(lower_description(c), c, d, c.signals@.len() as int);
    lemma_same_origins(c, d, 0);
    assert(all_text(c) == all_text(d));
    assert(origin_of(c) == origin_of(d));
    let slug = slug_of(c.full_name@);
    let slug_tokens = tokens_of(slug);
    let owner_tokens = owner_tokens_of(c.full_name@);
    assert forall|i: int| 0 <= i < c.signals@.len() implies signal_migrates(
        #[trigger] c.signals@[i],
        slug,
        slug_tokens,
        owner_tokens,
    ) == signal_migrates(d.signals@[i], slug, slug_tokens, owner_tokens) by {
        assert(same_lower_signal(c.signals@[i], d.signals@[i]));
    }
    if exists|i: int|
        0 <= i < d.signals@.len() && signal_migrates(
            #[trigger] d.signals@[i],
            slug,
            slug_tokens,
            owner_tokens,
        ) {
        let i = choose|i: int|
            0 <= i < d.signals@.len() && signal_migrates(
                #[trigger] d.signals@[i],
                slug,
                slug_tokens,
                owner_tokens,
            );
        assert(signal_migrates(c.signals@[i], slug, slug_tokens, owner_tokens));
    }
}

/// The name, the description and the details of the signals are of ASCII alone.
pub open spec fn is_ascii_candidate(c: Candidate) -> bool {
    &&& model::all_ascii(c.full_name@)
    &&& model::all_ascii(model::text_or_empty(c.description))
    &&& forall|i: int|
        0 <= i < c.signals@.len() ==> model::all_ascii((#[trigger] c.signals@[i]).detail@)
}

/// `low` is `c` with these texts in lower case; the kinds of the signals are the
/// same.
pub open spec fn is_lowered(c: Candidate, low: Candidate) -> bool {
    &&& low.full_name@ == model::ascii_lowercase(c.full_name@)
    &&& low.description is Some == c.description is Some
    &&& model::text_or_empty(low.description) == model::ascii_lowercase(
        model::text_or_empty(c.description),
    )
    &&& low.signals@.len() == c.signals@.len()
    &&& forall|i: int|
        0 <= i < c.signals@.len() ==> {
            &&& (#[trigger] low.signals@[i]).kind@ == c.signals@[i].kind@
            &&& low.signals@[i].detail@ == model::ascii_lowercase(c.signals@[i].detail@)
        }
}

proof fn lemma_lowered_body(detail: Seq<char>)
    ensures
        title_body(model::ascii_lowercase(detail)) == model::ascii_lowercase(title_body(detail)),
{
    let low = model::ascii_lowercase(detail);
    reveal_strlit(": ");
    model::lemma_find_lowered(detail, ": "@);
    model::lemma_found(detail, ": "@);
    match model::find(detail, ": "@) {
        Some(i) => {
            assert(low.skip(i + 2) =~= model::ascii_lowercase(detail.skip(i + 2)));
        },
        None => {},
    }
}

proof fn lemma_lowered_signal(s: Signal, low: Signal)
    requires
        model::all_ascii(s.detail@),
        low.kind@ == s.kind@,
        low.detail@ == model::ascii_lowercase(s.detail@),
    ensures
        same_lower_signal(s, low),
{
    let detail = s.detail@;
    lemma_lowered_body(detail);
    model::lemma_found(detail, ": "@);
    assert(model::all_ascii(title_body(detail)));
    model::lemma_lowered_ascii(detail);
    model::lemma_lowered_ascii(title_body(detail));
}

/// Whether a repository with texts of ASCII is the product that is being migrated
/// does not depend on the case of their letters.
pub proof fn identity_ignores_ascii_case(c: Candidate, low: Candidate)
    requires
        is_ascii_candidate(c),
        is_lowered(c, low),
    ensures
        is_same_product(low) == is_same_product(c),
{
    model::lemma_split_lowered(c.full_name@, '/');
    let pieces = model::split(c.full_name@, CharClass::Only('/'));
    model::lemma_lowered_ascii(pieces[0]);
    model::lemma_lowered_ascii(pieces.last());
    model::lemma_lowered_ascii(model::text_or_empty(c.description));
    assert forall|i: int| 0 <= i < c.signals@.len() implies same_lower_signal(
        #[trigger] c.signals@[i],
        low.signals@[i],
    ) by {
        assert(low.signals@[i].detail@ == model::ascii_lowercase(c.signals@[i].detail@));
        lemma_lowered_signal(c.signals@[i], low.signals@[i]);
    }
    identity_ignores_case(c, low);
}

} // verus!
