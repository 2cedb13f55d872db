//! Laws of classification: which texts, languages and histories make a rewrite, a
//! replacement, or neither.

use crate::detect::classify;
use crate::detect::classify::ProjectKind;
use crate::detect::commits;
use crate::detect::commits::LanguageAnalysis;
use crate::detect::transitions::HistoryAnalysis;
use crate::laws::log;
use crate::laws::texts;
use crate::text_model as model;
use crate::types::{Candidate, Signal};
use vstd::prelude::*;
use vstd::string::*;

verus! {

// --- Kinds -------------------------------------------------------------------

/// The sources displaced a language that is a real application language.
pub open spec fn displaces(analysis: LanguageAnalysis) -> bool {
    analysis.original_language matches Some(language) && !commits::is_noise(language@)
}

/// The history shows a strong shift away from a real application language.
pub open spec fn shifts(history: HistoryAnalysis) -> bool {
    history.strong_transition && (history.from_language matches Some(language)
        && !commits::is_noise(language@))
}

/// A candidate that is no API shim and no rewrite, whose text claims a port of
/// something else and whose sources displaced a real language, is a replacement,
/// whether or not an origin is named.
pub proof fn ports_that_displace_a_language_are_replacements(
    candidate: Candidate,
    analysis: LanguageAnalysis,
    history: HistoryAnalysis,
)
    requires
        !classify::is_api_shim(candidate),
        classify::kind_of(candidate, analysis, history) != ProjectKind::Rewrite,
        classify::claims_external_port(classify::all_text(candidate)),
        displaces(analysis),
    ensures
        classify::kind_of(candidate, analysis, history) == ProjectKind::Replacement,
{
}

/// So is one whose text claims a port and names an origin.
pub proof fn ports_of_a_named_origin_are_replacements(
    candidate: Candidate,
    analysis: LanguageAnalysis,
    history: HistoryAnalysis,
)
    requires
        !classify::is_api_shim(candidate),
        classify::kind_of(candidate, analysis, history) != ProjectKind::Rewrite,
        classify::claims_external_port(classify::all_text(candidate)),
        classify::origin_of(candidate) is Some,
    ensures
        classify::kind_of(candidate, analysis, history) == ProjectKind::Replacement,
{
}

/// So is a migration of the product itself that nothing proves.
pub proof fn unproved_migrations_are_replacements(
    candidate: Candidate,
    analysis: LanguageAnalysis,
    history: HistoryAnalysis,
)
    requires
        !classify::is_api_shim(candidate),
        classify::is_same_product(candidate),
        !shifts(history),
        !classify::discussed_migration(candidate),
        classify::claims_in_place(classify::all_text(candidate)) || classify::claims_external_port(
            classify::all_text(candidate),
        ),
    ensures
        classify::kind_of(candidate, analysis, history) == ProjectKind::Replacement,
{
}

/// So is a third-party project that claims a rewrite or a port and whose history
/// shows the shift.
pub proof fn third_parties_with_history_are_replacements(
    candidate: Candidate,
    analysis: LanguageAnalysis,
    history: HistoryAnalysis,
)
    requires
        !classify::is_api_shim(candidate),
        !classify::is_same_product(candidate),
        shifts(history),
        classify::claims_in_place(classify::all_text(candidate)) || classify::claims_external_port(
            classify::all_text(candidate),
        ),
    ensures
        classify::kind_of(candidate, analysis, history) == ProjectKind::Replacement,
{
}

/// So is one that claims a rewrite, and that displaced a real language or says what
/// it rewrites.
pub proof fn third_party_rewrites_with_a_target_are_replacements(
    candidate: Candidate,
    analysis: LanguageAnalysis,
    history: HistoryAnalysis,
)
    requires
        !classify::is_api_shim(candidate),
        !classify::is_same_product(candidate),
        classify::claims_in_place(classify::all_text(candidate)),
        displaces(analysis) || classify::claims_targeted(classify::all_text(candidate)),
    ensures
        classify::kind_of(candidate, analysis, history) == ProjectKind::Replacement,
{
}

/// A third-party project whose claim is borne out by nothing is neither: no history
/// shows a shift, no real language was displaced, nothing is named that it ports or
/// rewrites, and it competes with nothing.
pub proof fn unfounded_claims_are_neither(
    candidate: Candidate,
    analysis: LanguageAnalysis,
    history: HistoryAnalysis,
)
    requires
        !classify::is_same_product(candidate),
        !shifts(history),
        !displaces(analysis),
        classify::origin_of(candidate) is None,
        !classify::claims_targeted(classify::all_text(candidate)),
        !classify::claims_competitor(classify::all_text(candidate)),
    ensures
        classify::kind_of(candidate, analysis, history) == ProjectKind::Neither,
{
}

/// What speaks of Rust's own interfaces is neither, whatever else it claims.
pub proof fn api_shims_are_neither(
    candidate: Candidate,
    analysis: LanguageAnalysis,
    history: HistoryAnalysis,
)
    requires
        classify::mentions_rust_api(classify::all_text(candidate)) || (classify::origin_of(
            candidate,
        ) matches Some(origin) && classify::mentions_rust_api(origin)),
    ensures
        classify::kind_of(candidate, analysis, history) == ProjectKind::Neither,
{
}

/// The product itself is a rewrite where its history shows the shift, or where its
/// migration was discussed.
pub proof fn proved_migrations_are_rewrites(
    candidate: Candidate,
    analysis: LanguageAnalysis,
    history: HistoryAnalysis,
)
    requires
        !classify::is_api_shim(candidate),
        classify::is_same_product(candidate),
        shifts(history) || classify::discussed_migration(candidate),
    ensures
        classify::kind_of(candidate, analysis, history) == ProjectKind::Rewrite,
{
}

// --- What is said ------------------------------------------------------------

proof fn lemma_said_in_part(before: Seq<char>, part: Seq<char>, after: Seq<char>, p: Seq<char>)
    requires
        model::contains(part, p),
    ensures
        model::contains(before + part + after, p),
{
    let i = choose|i: int| model::matches_at(part, p, i);
    let s = before + part + after;
    assert(s.subrange(before.len() + i, before.len() + i + p.len()) =~= part.subrange(
        i,
        i + p.len(),
    ));
    assert(model::matches_at(s, p, before.len() + i));
}

proof fn lemma_said_in_details(base: Seq<char>, signals: Seq<Signal>, n: int, p: Seq<char>, k: int)
    requires
        0 <= n <= signals.len(),
    ensures
        model::contains(base, p) ==> model::contains(classify::with_details(base, signals, n), p),
        0 <= k < n && model::contains(model::lowercase(signals[k].detail@), p) ==> model::contains(
            classify::with_details(base, signals, n),
            p,
        ),
    decreases n,
{
    if n > 0 {
        lemma_said_in_details(base, signals, n - 1, p, k);
        let before = classify::with_details(base, signals, n - 1);
        let detail = model::lowercase(signals[n - 1].detail@);
        let all = before.push(' ') + detail;
        if model::contains(before, p) {
            lemma_said_in_part(Seq::empty(), before, seq![' '] + detail, p);
            assert(Seq::empty() + before + (seq![' '] + detail) =~= all);
        }
        if model::contains(detail, p) {
            lemma_said_in_part(before.push(' '), detail, Seq::empty(), p);
            assert(before.push(' ') + detail + Seq::empty() =~= all);
        }
    }
}

/// Some part of a candidate, its description or the detail of a signal, says this
/// in lower case.
pub open spec fn says(candidate: Candidate, p: Seq<char>) -> bool {
    (candidate.description matches Some(d) && model::contains(model::lowercase(d@), p))
        || exists|k: int|
        0 <= k < candidate.signals@.len() && model::contains(
            model::lowercase((#[trigger] candidate.signals@[k]).detail@),
            p,
        )
}

/// Whatever the description or any signal says is said by the candidate.
pub proof fn every_part_is_heard(candidate: Candidate, p: Seq<char>)
    requires
        says(candidate, p),
    ensures
        model::contains(classify::all_text(candidate), p),
{
    let n = candidate.signals@.len() as int;
    let base = classify::lower_description(candidate);
    lemma_said_in_details(base, candidate.signals@, n, p, 0);
    if !(candidate.description matches Some(d) && model::contains(model::lowercase(d@), p)) {
        let k = choose|k: int|
            0 <= k < candidate.signals@.len() && model::contains(
                model::lowercase((#[trigger] candidate.signals@[k]).detail@),
                p,
            );
        lemma_said_in_details(base, candidate.signals@, n, p, k);
    }
}

/// A claim stands wherever one of its phrases does: in the description, or in any
/// signal.
pub proof fn claims_are_heard(candidate: Candidate, k: int)
    ensures
        0 <= k < classify::COMPETITOR@.len() && says(candidate, classify::COMPETITOR@[k]@)
            ==> classify::claims_competitor(classify::all_text(candidate)),
        0 <= k < classify::EXTERNAL_PORT@.len() && says(candidate, classify::EXTERNAL_PORT@[k]@)
            ==> classify::claims_external_port(classify::all_text(candidate)),
        0 <= k < classify::IN_PLACE@.len() && says(candidate, classify::IN_PLACE@[k]@)
            ==> classify::claims_in_place(classify::all_text(candidate)),
        0 <= k < classify::TARGETED@.len() && says(candidate, classify::TARGETED@[k]@)
            ==> classify::claims_targeted(classify::all_text(candidate)),
        0 <= k < classify::API_MARKERS@.len() && says(candidate, classify::API_MARKERS@[k]@)
            ==> classify::is_api_shim(candidate),
{
    if 0 <= k < classify::COMPETITOR@.len() && says(candidate, classify::COMPETITOR@[k]@) {
        every_part_is_heard(candidate, classify::COMPETITOR@[k]@);
    }
    if 0 <= k < classify::EXTERNAL_PORT@.len() && says(candidate, classify::EXTERNAL_PORT@[k]@) {
        every_part_is_heard(candidate, classify::EXTERNAL_PORT@[k]@);
    }
    if 0 <= k < classify::IN_PLACE@.len() && says(candidate, classify::IN_PLACE@[k]@) {
        every_part_is_heard(candidate, classify::IN_PLACE@[k]@);
    }
    if 0 <= k < classify::TARGETED@.len() && says(candidate, classify::TARGETED@[k]@) {
        every_part_is_heard(candidate, classify::TARGETED@[k]@);
    }
    if 0 <= k < classify::API_MARKERS@.len() && says(candidate, classify::API_MARKERS@[k]@) {
        every_part_is_heard(candidate, classify::API_MARKERS@[k]@);
    }
}

/// A competitor is never dropped: what says that it replaces or clones something,
/// and does not speak of Rust's own interfaces, is a replacement or a rewrite.
pub proof fn competitors_are_never_dropped(
    candidate: Candidate,
    analysis: LanguageAnalysis,
    history: HistoryAnalysis,
    k: int,
)
    requires
        0 <= k < classify::COMPETITOR@.len(),
        says(candidate, classify::COMPETITOR@[k]@),
        !classify::is_api_shim(candidate),
    ensures
        classify::kind_of(candidate, analysis, history) != ProjectKind::Neither,
{
    claims_are_heard(candidate, k);
}

// --- Discussions -------------------------------------------------------------

/// What stands behind a label and its colon is the title.
pub proof fn titles_stand_behind_their_label(label: Seq<char>, title: Seq<char>)
    requires
        title.len() > 0,
        !model::contains(label.push(':'), ": "@),
    ensures
        classify::title_body(label + seq![':', ' '] + title) == title,
{
    reveal_strlit(": ");
    assert(": "@ =~= seq![':', ' ']);
    let s = label + seq![':', ' '] + title;
    let n = label.len() as int;
    assert(s.subrange(n, n + 2) =~= ": "@);
    assert forall|j: int| 0 <= j < n implies !model::matches_at(s, ": "@, j) by {
        if model::matches_at(s, ": "@, j) {
            assert(label.push(':').subrange(j, j + 2) =~= s.subrange(j, j + 2));
            assert(model::matches_at(label.push(':'), ": "@, j));
        }
    }
    model::lemma_find(s, ": "@, n);
    assert(s.skip(n + 2) =~= title);
}

/// The titles of pull requests and issues are heard; those of other signals are not.
pub open spec fn is_heard(s: Signal) -> bool {
    s.kind@ == "pull-request"@ || s.kind@ == "issue"@
}

/// A title, in lower case, that speaks of a move to Rust.
pub open spec fn speaks_of_a_move(title: Seq<char>) -> bool {
    model::contains(title, "rust"@) && (model::contains(title, "rewrite"@) || model::contains(
        title,
        "rewriting"@,
    ) || model::contains(title, "rewritten"@) || model::contains(title, "port to"@)
        || model::contains(title, "ported to"@) || model::contains(title, "migrate"@)
        || model::contains(title, "migrating"@) || model::contains(title, "migrated"@))
}

/// A title, in lower case, that is but a wish.
pub open spec fn is_a_wish(title: Seq<char>) -> bool {
    model::contains(title, "rewrite it in"@) || model::contains(title, "rewritten in rust?"@)
        || model::contains(title, "riir"@)
}

/// A migration was discussed if and only if the title of some pull request or issue
/// speaks of a move to Rust, and not as a wish.
pub proof fn discussions_are_by_title(candidate: Candidate)
    ensures
        classify::discussed_migration(candidate) <==> exists|i: int|
            0 <= i < candidate.signals@.len() && is_heard(#[trigger] candidate.signals@[i])
                && speaks_of_a_move(
                model::lowercase(classify::title_body(candidate.signals@[i].detail@)),
            ) && !is_a_wish(
                model::lowercase(classify::title_body(candidate.signals@[i].detail@)),
            ),
{
    assert forall|t: Seq<char>| #[trigger] classify::titles_migration(t) == speaks_of_a_move(t) by {
        let table = classify::MIGRATION_WORDS@;
        assert(table[0]@ == "rewrite"@ && table[1]@ == "rewriting"@ && table[2]@ == "rewritten"@
            && table[3]@ == "port to"@ && table[4]@ == "ported to"@ && table[5]@ == "migrate"@
            && table[6]@ == "migrating"@ && table[7]@ == "migrated"@);
    }
    assert forall|t: Seq<char>| #[trigger] classify::titles_wish(t) == is_a_wish(t) by {
        let table = classify::WISHLIST@;
        assert(table[0]@ == "rewrite it in"@ && table[1]@ == "rewritten in rust?"@ && table[2]@
            == "riir"@);
    }
    assert forall|i: int| 0 <= i < candidate.signals@.len() implies classify::is_migration_signal(
        #[trigger] candidate.signals@[i],
    ) == (is_heard(candidate.signals@[i]) && speaks_of_a_move(
        model::lowercase(classify::title_body(candidate.signals@[i].detail@)),
    ) && !is_a_wish(model::lowercase(classify::title_body(candidate.signals@[i].detail@)))) by {
        let t = model::lowercase(classify::title_body(candidate.signals@[i].detail@));
        assert(classify::titles_migration(t) == speaks_of_a_move(t));
        assert(classify::titles_wish(t) == is_a_wish(t));
    }
}

/// A pull request or issue that speaks of a move to Rust, and names the product by
/// its letters and digits, is about the product itself.
pub proof fn titles_that_name_the_product_show_identity(candidate: Candidate, i: int)
    requires
        0 <= i < candidate.signals@.len(),
        is_heard(candidate.signals@[i]),
        speaks_of_a_move(model::lowercase(classify::title_body(candidate.signals@[i].detail@))),
        model::utf8_len(classify::compact(classify::slug_of(candidate.full_name@))) >= 4,
        model::contains(
            classify::compact(
                model::lowercase(classify::title_body(candidate.signals@[i].detail@)),
            ),
            classify::compact(classify::slug_of(candidate.full_name@)),
        ),
    ensures
        classify::is_same_product(candidate),
{
    let table = classify::MIGRATION_WORDS@;
    assert(table[0]@ == "rewrite"@ && table[1]@ == "rewriting"@ && table[2]@ == "rewritten"@
        && table[3]@ == "port to"@ && table[4]@ == "ported to"@ && table[5]@ == "migrate"@
        && table[6]@ == "migrating"@ && table[7]@ == "migrated"@);
    let slug = classify::slug_of(candidate.full_name@);
    assert(classify::signal_migrates(
        candidate.signals@[i],
        slug,
        classify::tokens_of(slug),
        classify::owner_tokens_of(candidate.full_name@),
    ));
}

// --- Names -------------------------------------------------------------------

/// The same token is the same name, and so are two tokens of six bytes or more of
/// which one begins with the other; shorter ones that differ are not.
pub proof fn names_agree_by_token_or_stem(t: Seq<char>, u: Seq<char>)
    ensures
        classify::overlap(seq![t], seq![t]),
        model::utf8_len(t) >= 6 && model::utf8_len(t + u) >= 6 ==> classify::overlap(
            seq![t],
            seq![t + u],
        ) && classify::overlap(seq![t + u], seq![t]),
        t != u && model::utf8_len(t) < 6 ==> !classify::overlap(seq![t], seq![u])
            && !classify::overlap(seq![u], seq![t]),
{
    assert(classify::tokens_agree(seq![t][0], seq![t][0]));
    assert((t + u).take(t.len() as int) =~= t);
    if model::utf8_len(t) >= 6 && model::utf8_len(t + u) >= 6 {
        assert(classify::tokens_agree(seq![t][0], seq![t + u][0]));
        assert(classify::tokens_agree(seq![t + u][0], seq![t][0]));
    }
}

/// Overlap is found wherever it is, and goes both ways.
pub proof fn overlap_goes_both_ways(a: Seq<Seq<char>>, b: Seq<Seq<char>>)
    ensures
        classify::overlap(a, b) == classify::overlap(b, a),
        forall|i: int, j: int|
            0 <= i < a.len() && 0 <= j < b.len() && #[trigger] a[i] == #[trigger] b[j]
                ==> classify::overlap(a, b),
{
    assert forall|i: int, j: int|
        0 <= i < a.len() && 0 <= j < b.len() && #[trigger] a[i]
            == #[trigger] b[j] implies classify::overlap(a, b) by {
        assert(classify::tokens_agree(a[i], b[j]));
    }
    if classify::overlap(a, b) {
        let (i, j) = choose|i: int, j: int|
            0 <= i < a.len() && 0 <= j < b.len() && #[trigger] classify::tokens_agree(a[i], b[j]);
        assert(classify::tokens_agree(b[j], a[i]));
    }
    if classify::overlap(b, a) {
        let (j, i) = choose|j: int, i: int|
            0 <= j < b.len() && 0 <= i < a.len() && #[trigger] classify::tokens_agree(b[j], a[i]);
        assert(classify::tokens_agree(a[i], b[j]));
    }
}

/// What names the repository's product as its origin is that product.
pub proof fn origins_that_name_the_product_show_identity(candidate: Candidate)
    requires
        classify::origin_of(candidate) matches Some(origin) && classify::overlap(
            classify::tokens_of(origin),
            classify::tokens_of(classify::slug_of(candidate.full_name@)),
        ),
    ensures
        classify::is_same_product(candidate),
{
}

// --- Origins -----------------------------------------------------------------

/// The description names the origin before any signal does.
pub proof fn descriptions_name_the_origin_first(candidate: Candidate)
    requires
        candidate.description matches Some(d) && classify::origin_in(
            model::lowercase(d@),
        ) is Some,
    ensures
        classify::origin_of(candidate) == classify::origin_in(
            model::lowercase(candidate.description->0@),
        ),
{
}

proof fn lemma_first_signal(signals: Seq<Signal>, k: int, i: int)
    requires
        0 <= k <= i < signals.len(),
        forall|j: int|
            k <= j < i ==> classify::generic_signal((#[trigger] signals[j]).detail@)
                || classify::origin_in(model::lowercase(signals[j].detail@)) is None,
        !classify::generic_signal(signals[i].detail@),
        classify::origin_in(model::lowercase(signals[i].detail@)) is Some,
    ensures
        classify::signals_origin(signals, k) == classify::origin_in(
            model::lowercase(signals[i].detail@),
        ),
    decreases i - k,
{
    if k < i {
        assert(classify::generic_signal(signals[k].detail@) || classify::origin_in(
            model::lowercase(signals[k].detail@),
        ) is None);
        lemma_first_signal(signals, k + 1, i);
    }
}

/// Where the description names none, the first signal does that is no search label
/// and names one.
pub proof fn signals_name_the_origin_next(candidate: Candidate, i: int)
    requires
        candidate.description matches Some(d) ==> classify::origin_in(
            model::lowercase(d@),
        ) is None,
        0 <= i < candidate.signals@.len(),
        forall|j: int|
            0 <= j < i ==> classify::generic_signal((#[trigger] candidate.signals@[j]).detail@)
                || classify::origin_in(model::lowercase(candidate.signals@[j].detail@)) is None,
        !classify::generic_signal(candidate.signals@[i].detail@),
        classify::origin_in(model::lowercase(candidate.signals@[i].detail@)) is Some,
    ensures
        classify::origin_of(candidate) == classify::origin_in(
            model::lowercase(candidate.signals@[i].detail@),
        ),
{
    lemma_first_signal(candidate.signals@, 0, i);
}

proof fn lemma_no_signal(signals: Seq<Signal>, k: int)
    requires
        0 <= k <= signals.len(),
        forall|j: int|
            k <= j < signals.len() ==> classify::generic_signal((#[trigger] signals[j]).detail@),
    ensures
        classify::signals_origin(signals, k) is None,
    decreases signals.len() - k,
{
    if k < signals.len() {
        assert(classify::generic_signal(signals[k].detail@));
        lemma_no_signal(signals, k + 1);
    }
}

/// Search labels alone name no origin.
pub proof fn labels_name_no_origin(candidate: Candidate)
    requires
        candidate.description is None,
        forall|j: int|
            0 <= j < candidate.signals@.len() ==> classify::generic_signal(
                (#[trigger] candidate.signals@[j]).detail@,
            ),
    ensures
        classify::origin_of(candidate) is None,
{
    lemma_no_signal(candidate.signals@, 0);
}

// --- Strong wording ----------------------------------------------------------

/// A description that says that the project replaces, clones or ports something
/// named is strong wording.
pub proof fn descriptions_make_strong_wording(candidate: Candidate, k: int)
    requires
        candidate.description is Some,
        ({
            let d = model::lowercase(candidate.description->0@);
            ||| 0 <= k < classify::COMPETITOR@.len() && model::contains(
                d,
                classify::COMPETITOR@[k]@,
            )
            ||| 0 <= k < classify::TARGETED@.len() && model::contains(d, classify::TARGETED@[k]@)
            ||| 0 <= k < classify::IN_PLACE@.len() && model::contains(d, classify::IN_PLACE@[k]@)
        }),
    ensures
        classify::strong_signal(candidate),
{
}

/// Of signals, only repository searches and pull requests make strong wording: what
/// issues and others say does not.
pub proof fn issues_make_no_strong_wording(candidate: Candidate)
    requires
        candidate.description is None,
        forall|i: int|
            0 <= i < candidate.signals@.len() ==> (#[trigger] candidate.signals@[i]).kind@
                != "repo-search"@ && candidate.signals@[i].kind@ != "pull-request"@,
    ensures
        !classify::strong_signal(candidate),
{
    lemma_nothing_is_said();
}

/// A pull request whose wording is no search label makes strong wording where it
/// speaks of a rewrite, a port of something named or a replacement.
pub proof fn pull_requests_make_strong_wording(candidate: Candidate, i: int)
    requires
        0 <= i < candidate.signals@.len(),
        candidate.signals@[i].kind@ == "pull-request"@ || candidate.signals@[i].kind@
            == "repo-search"@,
        ({
            let d = model::lowercase(candidate.signals@[i].detail@);
            ||| classify::claims_competitor(d)
            ||| classify::claims_targeted(d)
            ||| classify::claims_in_place(d) && !classify::label_wording(d)
        }),
    ensures
        classify::strong_signal(candidate),
{
    assert(classify::signal_advertises(candidate.signals@[i]));
}

/// Without text there is no claim.
proof fn lemma_nothing_is_said()
    ensures
        !classify::advertises_rewrite(model::lowercase(Seq::empty())),
{
    let none = model::lowercase(Seq::<char>::empty());
    assert(none =~= Seq::empty()) by {
        reveal(model::lowercase);
    }
    lemma_tables_are_filled();
    assert forall|p: Seq<char>| p.len() > 0 implies !(#[trigger] model::contains(none, p)) by {
        model::lemma_lacks(none, p, 0);
    }
    assert forall|k: int| 0 <= k < classify::MIGRATION_VERBS@.len() implies !classify::verb_applies(
        none,
        (#[trigger] classify::MIGRATION_VERBS@[k]).0@,
        classify::MIGRATION_VERBS@[k].1@,
    ) by {
        model::lemma_found(none, classify::MIGRATION_VERBS@[k].0@);
    }
}

proof fn lemma_tables_are_filled()
    ensures
        forall|k: int|
            0 <= k < classify::COMPETITOR@.len() ==> (#[trigger] classify::COMPETITOR@[k])@.len()
                > 0,
        forall|k: int|
            0 <= k < classify::TARGETED@.len() ==> (#[trigger] classify::TARGETED@[k])@.len() > 0,
        forall|k: int|
            0 <= k < classify::IN_PLACE@.len() ==> (#[trigger] classify::IN_PLACE@[k])@.len() > 0,
        forall|k: int|
            0 <= k < classify::MIGRATION_VERBS@.len() ==> (
            #[trigger] classify::MIGRATION_VERBS@[k]).0@.len() > 0,
{
    reveal_strlit("alternative for");
    reveal_strlit("alternative to");
    reveal_strlit("clone of");
    reveal_strlit("compatible with");
    reveal_strlit("drop in replacement");
    reveal_strlit("drop-in replacement");
    reveal_strlit("in place of");
    reveal_strlit("instead of");
    reveal_strlit("migrate ");
    reveal_strlit("migrated to rust");
    reveal_strlit("migrating ");
    reveal_strlit("migrating to rust");
    reveal_strlit("migration to rust");
    reveal_strlit("now in rust");
    reveal_strlit("now written in rust");
    reveal_strlit("port ");
    reveal_strlit("port of");
    reveal_strlit("ported ");
    reveal_strlit("porting ");
    reveal_strlit("reimplementation in rust of");
    reveal_strlit("reimplementation of");
    reveal_strlit("replacement for");
    reveal_strlit("replacement of");
    reveal_strlit("replaces ");
    reveal_strlit("rewrite ");
    reveal_strlit("rewrite in rust");
    reveal_strlit("rewrite of");
    reveal_strlit("rewriting ");
    reveal_strlit("rewritten from");
    reveal_strlit("rewritten in rust");
    reveal_strlit("rewrote ");
    reveal_strlit("rust port of");
    reveal_strlit("successor of");
    reveal_strlit("successor to");
    reveal_strlit("translated to rust");
    reveal_strlit("translation of");
}

// --- Grounds -----------------------------------------------------------------

/// No replacement is without a ground: it competes with something, or claims a port
/// of what it names or displaced, or claims a rewrite or a port that its identity or
/// its history bears out, or claims a rewrite of what it displaced or names.
pub proof fn replacements_have_a_ground(
    candidate: Candidate,
    analysis: LanguageAnalysis,
    history: HistoryAnalysis,
)
    requires
        classify::kind_of(candidate, analysis, history) == ProjectKind::Replacement,
        !classify::claims_competitor(classify::all_text(candidate)),
    ensures
        ({
            let text = classify::all_text(candidate);
            let (rewrite, port) = (
                classify::claims_in_place(text),
                classify::claims_external_port(text),
            );
            ||| port && (classify::origin_of(candidate) is Some || displaces(analysis))
            ||| (rewrite || port) && (classify::is_same_product(candidate) || shifts(history))
            ||| rewrite && (displaces(analysis) || classify::claims_targeted(text))
        }),
        !classify::is_api_shim(candidate),
{
}

/// No rewrite is without identity and proof.
pub proof fn rewrites_have_identity_and_a_proof(
    candidate: Candidate,
    analysis: LanguageAnalysis,
    history: HistoryAnalysis,
)
    requires
        classify::kind_of(candidate, analysis, history) == ProjectKind::Rewrite,
    ensures
        classify::is_same_product(candidate),
        shifts(history) || classify::discussed_migration(candidate),
        !classify::is_api_shim(candidate),
{
}

// --- Identity ----------------------------------------------------------------

/// A name fits a product where it shares a token with the product's name or with its
/// owner's, or where one of the two names stands in the other.
pub proof fn names_fit_by_product_or_owner(
    name: Seq<char>,
    slug: Seq<char>,
    slug_tokens: Seq<Seq<char>>,
    owner_tokens: Seq<Seq<char>>,
)
    ensures
        classify::overlap(classify::tokens_of(name), slug_tokens) ==> classify::name_fits(
            name,
            slug,
            slug_tokens,
            owner_tokens,
        ),
        classify::overlap(classify::tokens_of(name), owner_tokens) ==> classify::name_fits(
            name,
            slug,
            slug_tokens,
            owner_tokens,
        ),
        model::contains(model::replace_char(name, ' ', seq!['-']), slug) ==> classify::name_fits(
            name,
            slug,
            slug_tokens,
            owner_tokens,
        ),
        model::contains(slug, model::replace_char(name, ' ', seq!['-'])) ==> classify::name_fits(
            name,
            slug,
            slug_tokens,
            owner_tokens,
        ),
        classify::compact(name) == classify::compact(slug) && model::utf8_len(
            classify::compact(slug),
        ) >= 5 ==> classify::name_fits(name, slug, slug_tokens, owner_tokens),
{
    reveal_strlit("-");
    assert("-"@ =~= seq!['-']);
}

/// What names the repository's owner as its origin, or its name by its letters and
/// digits, is the product itself.
pub proof fn origins_that_name_the_owner_show_identity(candidate: Candidate, origin: Seq<char>)
    requires
        classify::origin_of(candidate) == Some(origin),
        classify::overlap(
            classify::tokens_of(origin),
            classify::owner_tokens_of(candidate.full_name@),
        ) || (classify::compact(origin) == classify::compact(
            classify::slug_of(candidate.full_name@),
        ) && model::utf8_len(classify::compact(origin)) >= 6),
    ensures
        classify::is_same_product(candidate),
{
}

/// A product that is named before a phrase of rewriting, and that fits the
/// repository, is the repository's.
pub proof fn named_products_show_identity(candidate: Candidate, product: Seq<char>)
    requires
        classify::product_before(classify::all_text(candidate), 0) == Some(product),
        classify::overlap(
            classify::tokens_of(product),
            classify::tokens_of(classify::slug_of(candidate.full_name@)),
        ) || classify::overlap(
            classify::tokens_of(product),
            classify::owner_tokens_of(candidate.full_name@),
        ),
    ensures
        classify::is_same_product(candidate),
{
}

/// The owner's tokens are those of what stands before the slash.
pub proof fn owners_stand_before_the_slash(owner: Seq<char>, name: Seq<char>)
    requires
        log::lacks(owner, '/'),
    ensures
        classify::owner_tokens_of(owner.push('/') + name) == classify::tokens_of(
            model::lowercase(owner),
        ),
{
    texts::texts_are_taken_apart(owner, '/', name);
}

/// A title that speaks of its own code, and is no wish, is about the product itself.
pub proof fn titles_of_own_code_show_identity(candidate: Candidate, i: int)
    requires
        0 <= i < candidate.signals@.len(),
        is_heard(candidate.signals@[i]),
        ({
            let title = model::lowercase(classify::title_body(candidate.signals@[i].detail@));
            &&& speaks_of_a_move(title)
            &&& !is_a_wish(title)
            &&& {
                ||| model::contains(title, "rewrite this"@)
                ||| model::contains(title, "rewriting this"@)
                ||| model::contains(title, "rewrite the codebase"@)
                ||| model::contains(title, "rewrite our"@)
                ||| model::contains(title, "migrate this"@)
                ||| model::contains(title, "migrate the codebase"@)
            }
        }),
    ensures
        classify::is_same_product(candidate),
{
    let title = model::lowercase(classify::title_body(candidate.signals@[i].detail@));
    let t = classify::OWN_CODE@;
    assert(t[0]@ == "rewrite this"@ && t[1]@ == "rewriting this"@ && t[2]@
        == "rewrite the codebase"@ && t[3]@ == "rewrite our"@ && t[4]@ == "migrate this"@ && t[5]@
        == "migrate the codebase"@);
    let w = classify::WISHLIST@;
    assert(w[0]@ == "rewrite it in"@ && w[1]@ == "rewritten in rust?"@ && w[2]@ == "riir"@);
    let table = classify::MIGRATION_WORDS@;
    assert(table[0]@ == "rewrite"@ && table[1]@ == "rewriting"@ && table[2]@ == "rewritten"@
        && table[3]@ == "port to"@ && table[4]@ == "ported to"@ && table[5]@ == "migrate"@
        && table[6]@ == "migrating"@ && table[7]@ == "migrated"@);
    let slug = classify::slug_of(candidate.full_name@);
    assert(classify::signal_migrates(
        candidate.signals@[i],
        slug,
        classify::tokens_of(slug),
        classify::owner_tokens_of(candidate.full_name@),
    ));
}

// --- Labels ------------------------------------------------------------------

/// Wording names no origin exactly where it begins as a search label does, or speaks
/// of some repository or project without a name.
pub proof fn labels_are_told_by_their_wording(d: Seq<char>)
    ensures
        classify::generic_wording(d) <==> {
            ||| model::contains(d, "named project"@)
            ||| model::contains(d, "repo describes a"@)
            ||| model::contains(d, "repo mentions a"@)
            ||| model::contains(d, "repo positions itself"@)
            ||| model::starts_with(d, "repo describes"@)
            ||| model::starts_with(d, "repo mentions"@)
            ||| model::starts_with(d, "repo positions"@)
        },
        classify::label_wording(d) <==> {
            ||| classify::generic_wording(d)
            ||| model::starts_with(d, "repo references"@)
            ||| model::starts_with(d, "repo is a "@)
            ||| model::starts_with(d, "readme/description mentions"@)
        },
{
    let p = classify::GENERIC_PHRASES@;
    assert(p[0]@ == "named project"@ && p[1]@ == "repo describes a"@ && p[2]@ == "repo mentions a"@
        && p[3]@ == "repo positions itself"@);
    let s = classify::GENERIC_STARTS@;
    assert(s[0]@ == "repo describes"@ && s[1]@ == "repo mentions"@ && s[2]@ == "repo positions"@);
    let l = classify::LABEL_STARTS@;
    assert(l[0]@ == "repo references"@ && l[1]@ == "repo is a "@ && l[2]@
        == "readme/description mentions"@);
}

/// A pull request or issue that speaks of a move to Rust, and shares a token with the
/// product's name or its owner's, is about the product itself.
pub proof fn titles_that_share_a_token_show_identity(candidate: Candidate, i: int)
    requires
        0 <= i < candidate.signals@.len(),
        is_heard(candidate.signals@[i]),
        ({
            let title = model::lowercase(classify::title_body(candidate.signals@[i].detail@));
            &&& speaks_of_a_move(title)
            &&& {
                ||| classify::overlap(
                    classify::tokens_of(title),
                    classify::tokens_of(classify::slug_of(candidate.full_name@)),
                )
                ||| classify::overlap(
                    classify::tokens_of(title),
                    classify::owner_tokens_of(candidate.full_name@),
                )
            }
        }),
    ensures
        classify::is_same_product(candidate),
{
    let table = classify::MIGRATION_WORDS@;
    assert(table[0]@ == "rewrite"@ && table[1]@ == "rewriting"@ && table[2]@ == "rewritten"@
        && table[3]@ == "port to"@ && table[4]@ == "ported to"@ && table[5]@ == "migrate"@
        && table[6]@ == "migrating"@ && table[7]@ == "migrated"@);
    let slug = classify::slug_of(candidate.full_name@);
    assert(classify::signal_migrates(
        candidate.signals@[i],
        slug,
        classify::tokens_of(slug),
        classify::owner_tokens_of(candidate.full_name@),
    ));
}

} // verus!
