//! Unsafe-Rust measurement: reading the reports of `cargo-geiger`.
//!
//! A report gives `unsafe_functions / total_functions`. Any failure yields
//! `None`.

use crate::detect::git_history::RunOutcome;
use crate::double;
use crate::double::Double;
use crate::text;
use crate::text_model as model;
use crate::text_model::CharClass;
use vstd::prelude::*;
use vstd::string::*;

verus! {

/// Seconds that a clone or a measurement may take.
pub const DEFAULT_TIMEOUT_SECS: u64 = 300;

/// The arguments of `git` for the clone to measure; the repository and the
/// directory follow.
pub const CLONE_ARGS: [&'static str; 6] = [
    "clone",
    "--depth",
    "1",
    "--recurse-submodules",
    "--shallow-submodules",
    "--quiet",
];

/// The arguments of `cargo` for the measurement.
pub const MEASURE_ARGS: [&'static str; 4] = ["geiger", "--output-format", "Json", "--quiet"];

/// A share in percent, rounded to hundredths.
pub open spec fn share_percent(part: nat, whole: nat) -> Double {
    double::rounded_to(double::percent(part as int, whole as int), double::HUNDRED)
}

/// A part of a whole in percent, rounded to hundredths; none of nothing.
pub open spec fn ratio_of(part: nat, whole: nat) -> Option<Double> {
    if whole == 0 {
        None
    } else {
        Some(share_percent(part, whole))
    }
}

/// `numerator` in `denominator` in percent, rounded to hundredths; none of nothing.
pub fn ratio(numerator: u64, denominator: u64) -> (r: Option<Double>)
    ensures
        r == ratio_of(numerator as nat, denominator as nat),
        r == if denominator == 0 {
            None
        } else {
            Some(share_percent(numerator as nat, denominator as nat))
        },
{
    if denominator == 0 {
        None
    } else {
        Some(double::round2(double::percentage(numerator as u128, denominator as u128)))
    }
}

/// Between none and a hundred percent.
pub open spec fn is_percentage(x: Double) -> bool {
    x.at_least(Double { bits: 0 }) && (Double { bits: double::HUNDRED }).at_least(x)
}

// --- JSON --------------------------------------------------------------------

/// A JSON value.
#[derive(Debug)]
pub enum Json {
    Null,
    Bool(bool),
    /// A number, where it is a whole one that fits in 64 bits.
    Number(Option<u64>),
    Text(String),
    Array(Vec<Json>),
    Object(Vec<(String, Json)>),
}

/// What a JSON value holds.
pub enum JsonModel {
    Null,
    Bool(bool),
    Number(Option<u64>),
    Text(Seq<char>),
    Array(Seq<JsonModel>),
    Object(Seq<(Seq<char>, JsonModel)>),
}

pub open spec fn model_of(value: Json) -> JsonModel
    decreases value,
{
    match value {
        Json::Null => JsonModel::Null,
        Json::Bool(b) => JsonModel::Bool(b),
        Json::Number(n) => JsonModel::Number(n),
        Json::Text(s) => JsonModel::Text(s@),
        Json::Array(items) => JsonModel::Array(models_of(items@)),
        Json::Object(members) => JsonModel::Object(member_models(members@)),
    }
}

pub open spec fn models_of(items: Seq<Json>) -> Seq<JsonModel>
    decreases items,
{
    if items.len() == 0 {
        Seq::empty()
    } else {
        models_of(items.drop_last()).push(model_of(items.last()))
    }
}

pub open spec fn member_models(members: Seq<(String, Json)>) -> Seq<(Seq<char>, JsonModel)>
    decreases members,
{
    if members.len() == 0 {
        Seq::empty()
    } else {
        member_models(members.drop_last()).push((members.last().0@, model_of(members.last().1)))
    }
}

/// A sum of safe and unsafe functions.
pub open spec fn plus(a: (nat, nat), b: (nat, nat)) -> (nat, nat) {
    (a.0 + b.0, a.1 + b.1)
}

/// The value of an object's member.
pub open spec fn member(members: Seq<(Seq<char>, JsonModel)>, key: Seq<char>, k: int) -> Option<
    JsonModel,
>
    decreases members.len() - k,
{
    if k < 0 || k >= members.len() {
        None
    } else if members[k].0 == key {
        Some(members[k].1)
    } else {
        member(members, key, k + 1)
    }
}

pub open spec fn as_count(value: Option<JsonModel>) -> Option<u64> {
    match value {
        Some(JsonModel::Number(n)) => n,
        _ => None,
    }
}

/// The functions that an object reports itself, in its member `functions`: a
/// count of safe ones and a count of unsafe ones, or nothing.
pub open spec fn own_functions(members: Seq<(Seq<char>, JsonModel)>) -> (nat, nat) {
    match member(members, "functions"@, 0) {
        Some(JsonModel::Object(functions)) => {
            let safe = as_count(member(functions, "safe"@, 0));
            let unsafe_ = as_count(
                if member(functions, "unsafe_"@, 0) is Some {
                    member(functions, "unsafe_"@, 0)
                } else {
                    member(functions, "unsafe"@, 0)
                },
            );
            match (safe, unsafe_) {
                (Some(s), Some(u)) => (s as nat, u as nat),
                _ => (0, 0),
            }
        },
        _ => (0, 0),
    }
}

/// The safe and unsafe functions that a value reports, at any depth.
pub open spec fn functions_in(value: JsonModel) -> (nat, nat)
    decreases value,
{
    match value {
        JsonModel::Object(members) => plus(own_functions(members), functions_in_members(members)),
        JsonModel::Array(items) => functions_in_items(items),
        _ => (0, 0),
    }
}

pub open spec fn functions_in_items(items: Seq<JsonModel>) -> (nat, nat)
    decreases items,
{
    if items.len() == 0 {
        (0, 0)
    } else {
        plus(functions_in_items(items.drop_last()), functions_in(items.last()))
    }
}

pub open spec fn functions_in_members(members: Seq<(Seq<char>, JsonModel)>) -> (nat, nat)
    decreases members,
{
    if members.len() == 0 {
        (0, 0)
    } else {
        plus(functions_in_members(members.drop_last()), functions_in(members.last().1))
    }
}

proof fn lemma_models(items: Seq<Json>)
    ensures
        models_of(items).len() == items.len(),
        forall|i: int|
            0 <= i < items.len() ==> #[trigger] models_of(items)[i] == model_of(items[i]),
    decreases items.len(),
{
    if items.len() > 0 {
        lemma_models(items.drop_last());
    }
}

proof fn lemma_member_models(members: Seq<(String, Json)>)
    ensures
        member_models(members).len() == members.len(),
        forall|i: int|
            0 <= i < members.len() ==> #[trigger] member_models(members)[i] == (
                members[i].0@,
                model_of(members[i].1),
            ),
    decreases members.len(),
{
    if members.len() > 0 {
        lemma_member_models(members.drop_last());
    }
}

proof fn lemma_items_grow(items: Seq<JsonModel>, i: int)
    requires
        0 <= i <= items.len(),
    ensures
        functions_in_items(items.take(i)).0 <= functions_in_items(items).0,
        functions_in_items(items.take(i)).1 <= functions_in_items(items).1,
    decreases items.len() - i,
{
    if i < items.len() {
        lemma_items_grow(items, i + 1);
        assert(items.take(i + 1).drop_last() =~= items.take(i));
    } else {
        assert(items.take(i) =~= items);
    }
}

proof fn lemma_members_grow(members: Seq<(Seq<char>, JsonModel)>, i: int)
    requires
        0 <= i <= members.len(),
    ensures
        functions_in_members(members.take(i)).0 <= functions_in_members(members).0,
        functions_in_members(members.take(i)).1 <= functions_in_members(members).1,
    decreases members.len() - i,
{
    if i < members.len() {
        lemma_members_grow(members, i + 1);
        assert(members.take(i + 1).drop_last() =~= members.take(i));
    } else {
        assert(members.take(i) =~= members);
    }
}

/// A sum of functions that fits in 64 bits, or none.
pub open spec fn fitting(total: (nat, nat), r: Option<(u64, u64)>) -> bool {
    match r {
        Some(counts) => total == (counts.0 as nat, counts.1 as nat),
        None => total.0 > u64::MAX || total.1 > u64::MAX,
    }
}

fn checked_plus(a: (u64, u64), b: (u64, u64)) -> (r: Option<(u64, u64)>)
    ensures
        fitting(plus((a.0 as nat, a.1 as nat), (b.0 as nat, b.1 as nat)), r),
{
    match (a.0.checked_add(b.0), a.1.checked_add(b.1)) {
        (Some(x), Some(y)) => Some((x, y)),
        _ => None,
    }
}

fn find_member<'a>(members: &'a Vec<(String, Json)>, key: &str) -> (r: Option<&'a Json>)
    ensures
        match r {
            Some(value) => member(member_models(members@), key@, 0) == Some(model_of(*value)),
            None => member(member_models(members@), key@, 0) is None,
        },
{
    let ghost models = member_models(members@);
    proof {
        lemma_member_models(members@);
    }
    let mut k: usize = 0;
    while k < members.len()
        invariant
            k <= members@.len(),
            models == member_models(members@),
            models.len() == members@.len(),
            forall|i: int|
                0 <= i < members@.len() ==> #[trigger] models[i] == (
                    members@[i].0@,
                    model_of(members@[i].1),
                ),
            member(models, key@, 0) == member(models, key@, k as int),
        decreases members@.len() - k,
    {
        if text::equal(members[k].0.as_str(), key) {
            return Some(&members[k].1);
        }
        k += 1;
    }
    None
}

fn count_of(value: Option<&Json>) -> (r: Option<u64>)
    ensures
        r == as_count(
            match value {
                Some(v) => Some(model_of(*v)),
                None => None,
            },
        ),
{
    match value {
        Some(Json::Number(n)) => *n,
        _ => None,
    }
}

fn count_own(members: &Vec<(String, Json)>) -> (r: (u64, u64))
    ensures
        own_functions(member_models(members@)) == (r.0 as nat, r.1 as nat),
{
    let functions = match find_member(members, "functions") {
        Some(Json::Object(functions)) => functions,
        _ => return (0, 0),
    };
    let safe = count_of(find_member(functions, "safe"));
    let unsafe_value = match find_member(functions, "unsafe_") {
        Some(value) => Some(value),
        None => find_member(functions, "unsafe"),
    };
    match (safe, count_of(unsafe_value)) {
        (Some(s), Some(u)) => (s, u),
        _ => (0, 0),
    }
}

/// The safe and unsafe functions that a value reports, at any depth; none where
/// a sum does not fit in 64 bits.
pub fn accumulate_functions(value: &Json) -> (r: Option<(u64, u64)>)
    ensures
        fitting(functions_in(model_of(*value)), r),
    decreases *value, 0int,
{
    match value {
        Json::Object(members) => {
            let own = count_own(members);
            match accumulate_members(members) {
                Some(inner) => checked_plus(own, inner),
                None => None,
            }
        },
        Json::Array(items) => accumulate_items(items),
        _ => Some((0, 0)),
    }
}

fn accumulate_items(items: &Vec<Json>) -> (r: Option<(u64, u64)>)
    ensures
        fitting(functions_in_items(models_of(items@)), r),
    decreases *items, 0int,
{
    let ghost models = models_of(items@);
    proof {
        lemma_models(items@);
    }
    let mut total: (u64, u64) = (0, 0);
    let mut i: usize = 0;
    assert(functions_in_items(models.take(0)) == (0nat, 0nat));
    while i < items.len()
        invariant
            i <= items@.len(),
            models == models_of(items@),
            models.len() == items@.len(),
            forall|k: int| 0 <= k < items@.len() ==> #[trigger] models[k] == model_of(items@[k]),
            functions_in_items(models.take(i as int)) == (total.0 as nat, total.1 as nat),
        decreases items@.len() - i,
    {
        assert(models.take(i + 1).drop_last() =~= models.take(i as int));
        assert(models.take(i + 1).last() == model_of(items@[i as int]));
        proof {
            lemma_items_grow(models, i + 1);
        }
        total = match accumulate_functions(&items[i]) {
            Some(counts) => match checked_plus(total, counts) {
                Some(sum) => sum,
                None => return None,
            },
            None => return None,
        };
        i += 1;
    }
    assert(models.take(models.len() as int) =~= models);
    Some(total)
}

fn accumulate_members(members: &Vec<(String, Json)>) -> (r: Option<(u64, u64)>)
    ensures
        fitting(functions_in_members(member_models(members@)), r),
    decreases *members, 0int,
{
    let ghost models = member_models(members@);
    proof {
        lemma_member_models(members@);
    }
    let mut total: (u64, u64) = (0, 0);
    let mut i: usize = 0;
    assert(functions_in_members(models.take(0)) == (0nat, 0nat));
    while i < members.len()
        invariant
            i <= members@.len(),
            models == member_models(members@),
            models.len() == members@.len(),
            forall|k: int|
                0 <= k < members@.len() ==> #[trigger] models[k] == (
                    members@[k].0@,
                    model_of(members@[k].1),
                ),
            functions_in_members(models.take(i as int)) == (total.0 as nat, total.1 as nat),
        decreases members@.len() - i,
    {
        assert(models.take(i + 1).drop_last() =~= models.take(i as int));
        assert(models.take(i + 1).last() == models[i as int]);
        proof {
            lemma_members_grow(models, i + 1);
        }
        total = match accumulate_functions(&members[i].1) {
            Some(counts) => match checked_plus(total, counts) {
                Some(sum) => sum,
                None => return None,
            },
            None => return None,
        };
        i += 1;
    }
    assert(models.take(models.len() as int) =~= models);
    Some(total)
}

/// The share of unsafe functions among all; none where there are no functions or
/// their number does not fit in 64 bits.
pub open spec fn share_of(total: (nat, nat)) -> Option<(nat, nat)> {
    let whole = total.0 + total.1;
    if whole == 0 || whole > u64::MAX {
        None
    } else {
        Some((total.1, whole))
    }
}

/// A share, in percent.
pub open spec fn percent_of(share: Option<(nat, nat)>) -> Option<Double> {
    match share {
        Some((part, whole)) => Some(share_percent(part, whole)),
        None => None,
    }
}

/// A share of at most the whole is at most a hundred percent.
proof fn lemma_share_is_percentage(part: nat, whole: nat)
    requires
        part <= whole <= u64::MAX,
        whole > 0,
    ensures
        is_percentage(share_percent(part, whole)),
{
    double::rounded_percents_are_bounded(part as int, whole as int);
}

/// The share of unsafe functions that a report in JSON gives.
pub fn json_share(report: &Json) -> (r: Option<Double>)
    ensures
        r == percent_of(share_of(functions_in(model_of(*report)))),
        r matches Some(x) ==> is_percentage(x),
{
    let counts = match accumulate_functions(report) {
        Some(counts) => counts,
        None => return None,
    };
    let whole: u64 = match counts.0.checked_add(counts.1) {
        Some(whole) => whole,
        None => return None,
    };
    proof {
        if whole > 0 {
            lemma_share_is_percentage(counts.1 as nat, whole as nat);
        }
    }
    ratio(counts.1, whole)
}

/// A JSON value as `serde_json` holds it.
#[verifier::external_type_specification]
#[verifier::external_body]
pub struct ExValue(serde_json::Value);

/// What a `serde_json::Value` holds.
pub uninterp spec fn value_model(value: serde_json::Value) -> JsonModel;

/// What `serde_json::from_str` reads in a text; nothing where it reports an
/// error.
pub uninterp spec fn parsed_json(text: Seq<char>) -> Option<JsonModel>;

/// `serde_json::from_str` into a `serde_json::Value`. What it accepts and what
/// it makes of it is a function of the text.
#[verifier::external_body]
fn parse_value(text: &str) -> (r: Option<serde_json::Value>)
    ensures
        match r {
            Some(value) => parsed_json(text@) == Some(value_model(value)),
            None => parsed_json(text@) is None,
        },
{
    serde_json::from_str(text).ok()
}

/// A `serde_json::Value` as a value of this library, member for member and item
/// for item; a number is what `serde_json::Number::as_u64` gives.
#[verifier::external_body]
fn convert_value(value: &serde_json::Value) -> (r: Json)
    ensures
        model_of(r) == value_model(*value),
{
    match value {
        serde_json::Value::Null => Json::Null,
        serde_json::Value::Bool(b) => Json::Bool(*b),
        serde_json::Value::Number(n) => Json::Number(n.as_u64()),
        serde_json::Value::String(s) => Json::Text(s.clone()),
        serde_json::Value::Array(items) => Json::Array(items.iter().map(convert_value).collect()),
        serde_json::Value::Object(members) => Json::Object(
            members.iter().map(|(k, v)| (k.clone(), convert_value(v))).collect(),
        ),
    }
}

/// The share of unsafe functions that a text gives as JSON.
pub open spec fn share_in_json(stdout: Seq<char>) -> Option<(nat, nat)> {
    match parsed_json(model::trim(stdout, CharClass::Whitespace)) {
        Some(report) => share_of(functions_in(report)),
        None => None,
    }
}

pub fn parse_geiger_json(stdout: &str) -> (r: Option<Double>)
    ensures
        r == percent_of(share_in_json(stdout@)),
        r matches Some(x) ==> is_percentage(x),
{
    match parse_value(text::trim(stdout, CharClass::Whitespace)) {
        Some(value) => json_share(&convert_value(&value)),
        None => None,
    }
}

// --- Text tree ---------------------------------------------------------------

pub open spec fn is_number_text(s: Seq<char>) -> bool {
    s.len() > 0 && model::all_digits(s)
}

/// Two numbers with a slash between them.
pub open spec fn is_metric_text(token: Seq<char>) -> bool {
    match model::split_once(token, "/"@) {
        Some(parts) => is_number_text(parts.0) && is_number_text(parts.1),
        None => false,
    }
}

/// The first metric among the words from the `k`-th on.
pub open spec fn first_metric(words: Seq<Seq<char>>, k: int) -> Option<Seq<char>>
    decreases words.len() - k,
{
    if k < 0 || k >= words.len() {
        None
    } else if is_metric_text(words[k]) {
        Some(words[k])
    } else {
        first_metric(words, k + 1)
    }
}

/// The counts of a metric, where both fit in 64 bits.
pub open spec fn metric_counts(token: Seq<char>) -> Option<(nat, nat)> {
    match model::split_once(token, "/"@) {
        Some(parts) => match (
            model::parse_unsigned(parts.0, u64::MAX as nat),
            model::parse_unsigned(parts.1, u64::MAX as nat),
        ) {
            (Some(x), Some(y)) => Some((x, y)),
            _ => None,
        },
        None => None,
    }
}

/// The counts of a line of the tree: its first metric, which is that of the
/// functions.
pub open spec fn line_counts(line: Seq<char>) -> (nat, nat) {
    match first_metric(model::words(line), 0) {
        Some(token) => match metric_counts(token) {
            Some(counts) => counts,
            None => (0, 0),
        },
        None => (0, 0),
    }
}

/// The unsafe functions and all functions of a tree's lines.
pub open spec fn tree_counts(lines: Seq<Seq<char>>) -> (nat, nat)
    decreases lines.len(),
{
    if lines.len() == 0 {
        (0, 0)
    } else {
        plus(tree_counts(lines.drop_last()), line_counts(lines.last()))
    }
}

/// The share of unsafe functions that a text gives as a tree; none where it
/// counts no functions or more unsafe ones than there are, or where a sum does
/// not fit in 64 bits.
pub open spec fn share_in_text(stdout: Seq<char>) -> Option<(nat, nat)> {
    let counts = tree_counts(model::lines(stdout));
    if counts.1 == 0 || counts.0 > counts.1 || counts.1 > u64::MAX {
        None
    } else {
        Some(counts)
    }
}

fn number_text(s: &str) -> (r: bool)
    ensures
        r == is_number_text(s@),
{
    let chars = text::to_chars(s);
    let mut i: usize = 0;
    while i < chars.len()
        invariant
            i <= chars@.len(),
            chars@ == s@,
            forall|j: int| 0 <= j < i ==> model::is_digit(#[trigger] s@[j]),
        decreases chars@.len() - i,
    {
        if !('0' <= chars[i] && chars[i] <= '9') {
            assert(!model::is_digit(s@[i as int]));
            return false;
        }
        i += 1;
    }
    chars.len() > 0
}

pub fn is_metric(token: &str) -> (r: bool)
    ensures
        r == is_metric_text(token@),
{
    match text::split_once(token, "/") {
        Some(parts) => number_text(parts.0) && number_text(parts.1),
        None => false,
    }
}

fn count_line(line: &str) -> (r: (u64, u64))
    ensures
        line_counts(line@) == (r.0 as nat, r.1 as nat),
{
    let words = text::words(line);
    let ghost all = model::words(line@);
    let mut k: usize = 0;
    while k < words.len()
        invariant
            k <= words@.len(),
            all == model::views(words@),
            all == model::words(line@),
            first_metric(all, 0) == first_metric(all, k as int),
        decreases words@.len() - k,
    {
        let token = words[k].as_str();
        assert(all[k as int] == token@);
        if is_metric(token) {
            if let Some(parts) = text::split_once(token, "/") {
                let x = text::parse_unsigned(parts.0, u64::MAX);
                let y = text::parse_unsigned(parts.1, u64::MAX);
                if let (Some(x), Some(y)) = (x, y) {
                    return (x, y);
                }
            }
            return (0, 0);
        }
        k += 1;
    }
    (0, 0)
}

proof fn lemma_tree_grows(lines: Seq<Seq<char>>, i: int)
    requires
        0 <= i <= lines.len(),
    ensures
        tree_counts(lines.take(i)).0 <= tree_counts(lines).0,
        tree_counts(lines.take(i)).1 <= tree_counts(lines).1,
    decreases lines.len() - i,
{
    if i < lines.len() {
        lemma_tree_grows(lines, i + 1);
        assert(lines.take(i + 1).drop_last() =~= lines.take(i));
    } else {
        assert(lines.take(i) =~= lines);
    }
}

pub fn parse_geiger_text(stdout: &str) -> (r: Option<Double>)
    ensures
        r == percent_of(share_in_text(stdout@)),
        r matches Some(x) ==> is_percentage(x),
{
    let lines = text::lines(stdout);
    let ghost all = model::lines(stdout@);
    let mut total: (u64, u64) = (0, 0);
    let mut i: usize = 0;
    assert(tree_counts(all.take(0)) == (0nat, 0nat));
    while i < lines.len()
        invariant
            i <= lines@.len(),
            all == model::views(lines@),
            all == model::lines(stdout@),
            tree_counts(all.take(i as int)) == (total.0 as nat, total.1 as nat),
        decreases lines@.len() - i,
    {
        assert(all.take(i + 1).drop_last() =~= all.take(i as int));
        assert(all.take(i + 1).last() == lines@[i as int]@);
        proof {
            lemma_tree_grows(all, i + 1);
        }
        total = match checked_plus(total, count_line(lines[i].as_str())) {
            Some(sum) => sum,
            None => return None,
        };
        i += 1;
    }
    assert(all.take(all.len() as int) =~= all);
    if total.0 > total.1 {
        return None;
    }
    proof {
        if total.1 > 0 {
            lemma_share_is_percentage(total.0 as nat, total.1 as nat);
        }
    }
    ratio(total.0, total.1)
}

/// The share of unsafe functions in a report.
pub open spec fn share_in_report(stdout: Seq<char>) -> Option<(nat, nat)> {
    if share_in_json(stdout) is Some {
        share_in_json(stdout)
    } else {
        share_in_text(stdout)
    }
}

/// The share of unsafe functions that a measurement gives.
pub open spec fn share_of_run(outcome: RunOutcome, stdout: Seq<char>) -> Option<(nat, nat)> {
    if outcome is Finished {
        share_in_report(stdout)
    } else {
        None
    }
}

/// The share of unsafe functions in a report: as JSON, or else as a tree.
pub fn parse_report(stdout: &str) -> (r: Option<Double>)
    ensures
        r == percent_of(share_in_report(stdout@)),
        r == percent_of(
            if share_in_json(stdout@) is Some {
                share_in_json(stdout@)
            } else {
                share_in_text(stdout@)
            },
        ),
        r matches Some(x) ==> is_percentage(x),
{
    match parse_geiger_json(stdout) {
        Some(ratio) => Some(ratio),
        None => parse_geiger_text(stdout),
    }
}

/// The share of unsafe functions that a measurement gives. A measurement can
/// fail after it wrote a usable report, so the report counts whenever the
/// measurement ran to its end.
pub fn measured_share(outcome: RunOutcome, stdout: &str) -> (r: Option<Double>)
    ensures
        r == percent_of(share_of_run(outcome, stdout@)),
        r == percent_of(
            if !(outcome is Finished) {
                None
            } else if share_in_json(stdout@) is Some {
                share_in_json(stdout@)
            } else {
                share_in_text(stdout@)
            },
        ),
        r matches Some(x) ==> is_percentage(x),
{
    match outcome {
        RunOutcome::Finished { success: _ } => parse_report(stdout),
        _ => None,
    }
}

/// A share that a text gives is at most a whole.
pub proof fn text_shares_are_at_most_whole(stdout: Seq<char>)
    ensures
        share_in_text(stdout) matches Some(share) ==> share.0 <= share.1,
{
}

/// A share that JSON gives is at most a whole.
pub proof fn json_shares_are_at_most_whole(total: (nat, nat))
    ensures
        share_of(total) matches Some(share) ==> share.0 <= share.1,
{
}

} // verus!
