//! Structured queries over typed frontmatter: the properties of notes as a
//! database. Output is bounded, and every row carries its own token cost.
use crate::memory::recall::budget_of;
use crate::order::{
    ascends, before, differs_at, fit, fits, law_fit_keeps_budget, law_stable_order,
    law_the_first_difference_orders, lemma_all_fit, lemma_ascends_front, lemma_before_asym,
    lemma_before_total, lemma_before_trans, lemma_stable_order_has, lemma_stable_order_range,
    lemma_total_is_cost, positions, sort_positions, stable_order, total, weak_order,
};
use crate::text::{
    has_string, holds, lemma_next_match, lower, lowercase, matches_at, next_match, opt_text, str_eq,
    str_holds, texts,
};
use crate::tokens::{estimate, token_estimate};
use crate::vault::double::{
    double_value, is_number, law_doubles_rank_by_value, law_whole_doubles_rank_as_numbers,
};
use crate::vault::index::VaultIndex;
use crate::vault::json::{
    copy_json_entries, entry_value, json_entries, json_equal, json_get, json_items, json_less,
    json_ordered, json_properties, json_text, law_a_key_reads_its_first_entry, lemma_json_model,
    properties_of, render_json, Json, JsonView,
};
use crate::vault::search::{first_of, lemma_fit_len};
use crate::vault::types::NoteView;
use vstd::prelude::*;
use vstd::string::*;

verus! {

/// A single condition. All conditions of a query hold together.
#[derive(Debug)]
pub struct PropFilter {
    pub key: String,
    pub op: PropOp,
    /// What to compare with; unused by `Exists` and `NotExists`.
    pub value: Option<Json>,
}

/// How to compare.
#[derive(Clone, Copy, Debug, PartialEq, Eq, Structural)]
pub enum PropOp {
    /// Equality (numbers compare by value).
    Eq,
    Ne,
    /// Membership in a list, or a part of a text whatever its case.
    Contains,
    Exists,
    NotExists,
    /// Ordered comparisons: of two numbers by value, of two texts by code
    /// point, which makes ISO dates work.
    Gt,
    Lt,
    Gte,
    Lte,
}

impl PropOp {
    /// The operator of a name.
    pub open spec fn named(s: Seq<char>) -> Option<PropOp> {
        if s == "eq"@ {
            Some(PropOp::Eq)
        } else if s == "ne"@ {
            Some(PropOp::Ne)
        } else if s == "contains"@ {
            Some(PropOp::Contains)
        } else if s == "exists"@ {
            Some(PropOp::Exists)
        } else if s == "not_exists"@ {
            Some(PropOp::NotExists)
        } else if s == "gt"@ {
            Some(PropOp::Gt)
        } else if s == "lt"@ {
            Some(PropOp::Lt)
        } else if s == "gte"@ {
            Some(PropOp::Gte)
        } else if s == "lte"@ {
            Some(PropOp::Lte)
        } else {
            None
        }
    }

    pub fn parse(s: &str) -> (r: Option<PropOp>)
        ensures
            r == PropOp::named(s@),
    {
        if str_eq(s, "eq") {
            Some(PropOp::Eq)
        } else if str_eq(s, "ne") {
            Some(PropOp::Ne)
        } else if str_eq(s, "contains") {
            Some(PropOp::Contains)
        } else if str_eq(s, "exists") {
            Some(PropOp::Exists)
        } else if str_eq(s, "not_exists") {
            Some(PropOp::NotExists)
        } else if str_eq(s, "gt") {
            Some(PropOp::Gt)
        } else if str_eq(s, "lt") {
            Some(PropOp::Lt)
        } else if str_eq(s, "gte") {
            Some(PropOp::Gte)
        } else if str_eq(s, "lte") {
            Some(PropOp::Lte)
        } else {
            None
        }
    }
}

/// What to query.
#[derive(Debug)]
pub struct PropertiesQueryArgs {
    pub filters: Vec<PropFilter>,
    /// Property keys to show in each row (all where absent).
    pub select: Option<Vec<String>>,
    /// Sort by this property's value (missing values sort last).
    pub sort_by: Option<String>,
    pub descending: bool,
    /// The most rows (50 where absent).
    pub limit: Option<usize>,
    /// Hard token ceiling across all rows.
    pub token_budget: Option<usize>,
}

/// The model of the arguments of a query.
#[verifier::ext_equal]
pub struct QueryView {
    pub filters: Seq<PropFilterView>,
    pub select: Option<Seq<Seq<char>>>,
    pub sort_by: Option<Seq<char>>,
    pub descending: bool,
    pub limit: Option<usize>,
    pub token_budget: Option<usize>,
}

impl View for PropertiesQueryArgs {
    type V = QueryView;

    open spec fn view(&self) -> QueryView {
        QueryView {
            filters: filters_view(self.filters@),
            select: select_view(self.select),
            sort_by: opt_text(self.sort_by),
            descending: self.descending,
            limit: self.limit,
            token_budget: self.token_budget,
        }
    }
}

impl Default for PropertiesQueryArgs {
    fn default() -> (r: Self)
        ensures
            r.filters@.len() == 0,
            r.select is None,
            r.sort_by is None,
            !r.descending,
            r.limit is None,
            r.token_budget is None,
    {
        PropertiesQueryArgs {
            filters: Vec::new(),
            select: None,
            sort_by: None,
            descending: false,
            limit: None,
            token_budget: None,
        }
    }
}

/// One row of an answer.
#[derive(Debug)]
pub struct PropertiesRow {
    pub note_id: String,
    pub title: String,
    pub properties: Vec<(String, Json)>,
    pub token_count: usize,
}

/// The model of a condition.
#[verifier::ext_equal]
pub struct PropFilterView {
    pub key: Seq<char>,
    pub op: PropOp,
    pub value: Option<JsonView>,
}

/// The model of a row.
#[verifier::ext_equal]
pub struct RowView {
    pub note_id: Seq<char>,
    pub title: Seq<char>,
    pub properties: Seq<(Seq<char>, JsonView)>,
    pub token_count: nat,
}

impl View for PropFilter {
    type V = PropFilterView;

    open spec fn view(&self) -> PropFilterView {
        PropFilterView {
            key: self.key@,
            op: self.op,
            value: match self.value {
                Some(j) => Some(j@),
                None => None,
            },
        }
    }
}

impl View for PropertiesRow {
    type V = RowView;

    open spec fn view(&self) -> RowView {
        RowView {
            note_id: self.note_id@,
            title: self.title@,
            properties: json_entries(self.properties@),
            token_count: self.token_count as nat,
        }
    }
}

pub open spec fn filters_view(v: Seq<PropFilter>) -> Seq<PropFilterView> {
    v.map_values(|f: PropFilter| f@)
}

pub open spec fn rows_view(v: Seq<PropertiesRow>) -> Seq<RowView> {
    v.map_values(|r: PropertiesRow| r@)
}

// ---------------------------------------------------------------------------
// Conditions
// ---------------------------------------------------------------------------

/// Whether one of some values equals another.
pub open spec fn some_equals(items: Seq<JsonView>, expected: JsonView) -> bool {
    exists|i: int| 0 <= i < items.len() && json_equal(#[trigger] items[i], expected)
}

/// Whether a value holds another: a list an equal item, a text a part of it.
pub open spec fn value_contains(actual: JsonView, expected: JsonView) -> bool {
    match actual {
        JsonView::List(items) => some_equals(items, expected),
        JsonView::Text(s) => match expected {
            JsonView::Text(needle) => holds(lowercase(s), lowercase(needle)),
            _ => false,
        },
        _ => false,
    }
}

/// Whether properties meet a condition.
pub open spec fn meets(props: Seq<(Seq<char>, JsonView)>, f: PropFilterView) -> bool {
    let actual = json_get(props, f.key);
    match f.op {
        PropOp::Exists => actual is Some,
        PropOp::NotExists => actual is None,
        _ => match (actual, f.value) {
            (Some(a), Some(e)) => match f.op {
                PropOp::Eq => json_equal(a, e),
                PropOp::Ne => !json_equal(a, e),
                PropOp::Contains => value_contains(a, e),
                PropOp::Gt => json_less(e, a),
                PropOp::Lt => json_less(a, e),
                PropOp::Gte => json_ordered(a, e) && !json_less(a, e),
                _ => json_ordered(a, e) && !json_less(e, a),
            },
            _ => false,
        },
    }
}

/// Whether properties meet all conditions.
pub open spec fn meets_all(props: Seq<(Seq<char>, JsonView)>, fs: Seq<PropFilterView>) -> bool {
    forall|k: int| 0 <= k < fs.len() ==> meets(props, #[trigger] fs[k])
}

fn contains_value(actual: &Json, expected: &Json) -> (r: bool)
    ensures
        r == value_contains(actual@, expected@),
{
    proof {
        lemma_json_model(*actual);
    }
    match actual {
        Json::List(items) => {
            let ghost all = json_items(items@);
            let mut i: usize = 0;
            while i < items.len()
                invariant
                    i <= items@.len(),
                    all == json_items(items@),
                    actual@ == JsonView::List(all),
                    forall|k: int| 0 <= k < i ==> !json_equal(#[trigger] all[k], expected@),
                decreases items@.len() - i,
            {
                assert(all[i as int] == items@[i as int]@);
                if items[i].equal(expected) {
                    assert(json_equal(all[i as int], expected@));
                    assert(some_equals(all, expected@));
                    return true;
                }
                i = i + 1;
            }
            false
        },
        Json::Text(s) => match expected {
            Json::Text(needle) => {
                let a = lower(s.as_str());
                let b = lower(needle.as_str());
                str_holds(a.as_str(), b.as_str())
            },
            _ => false,
        },
        _ => false,
    }
}

/// Whether properties meet a condition.
pub fn matches_filter(props: &Vec<(String, Json)>, filter: &PropFilter) -> (r: bool)
    ensures
        r == meets(json_entries(props@), filter@),
{
    let actual = entry_value(props, filter.key.as_str());
    match filter.op {
        PropOp::Exists => actual.is_some(),
        PropOp::NotExists => actual.is_none(),
        _ => {
            let a = match actual {
                Some(a) => a,
                None => {
                    return false;
                },
            };
            let e = match &filter.value {
                Some(e) => e,
                None => {
                    return false;
                },
            };
            match filter.op {
                PropOp::Eq => a.equal(e),
                PropOp::Ne => !a.equal(e),
                PropOp::Contains => contains_value(a, e),
                PropOp::Gt => e.less(a),
                PropOp::Lt => a.less(e),
                PropOp::Gte => a.ordered(e) && !a.less(e),
                _ => a.ordered(e) && !e.less(a),
            }
        },
    }
}

fn matches_all(props: &Vec<(String, Json)>, filters: &Vec<PropFilter>) -> (r: bool)
    ensures
        r == meets_all(json_entries(props@), filters_view(filters@)),
{
    let ghost fs = filters_view(filters@);
    let mut k: usize = 0;
    while k < filters.len()
        invariant
            k <= filters@.len(),
            fs == filters_view(filters@),
            forall|j: int| 0 <= j < k ==> meets(json_entries(props@), #[trigger] fs[j]),
        decreases filters@.len() - k,
    {
        assert(fs[k as int] == filters@[k as int]@);
        if !matches_filter(props, &filters[k]) {
            return false;
        }
        k = k + 1;
    }
    true
}

// ---------------------------------------------------------------------------
// Rows
// ---------------------------------------------------------------------------

/// The rows of the notes from `i` on that meet all conditions, with all their
/// properties and no cost yet.
pub open spec fn matching_from(s: Seq<NoteView>, fs: Seq<PropFilterView>, i: int) -> Seq<RowView>
    decreases s.len() - i,
{
    if i < 0 || i >= s.len() {
        seq![]
    } else if meets_all(properties_of(s[i].frontmatter), fs) {
        seq![
            RowView {
                note_id: s[i].id,
                title: s[i].title,
                properties: properties_of(s[i].frontmatter),
                token_count: 0,
            },
        ] + matching_from(s, fs, i + 1)
    } else {
        matching_from(s, fs, i + 1)
    }
}

/// The order of rows by a property: by its value, ascending or descending,
/// rows without it last.
pub open spec fn row_before(a: RowView, b: RowView, key: Seq<char>, descending: bool) -> bool {
    match (json_get(a.properties, key), json_get(b.properties, key)) {
        (Some(x), Some(y)) => if descending {
            json_less(y, x)
        } else {
            json_less(x, y)
        },
        (Some(_), None) => true,
        _ => false,
    }
}

/// The order of rows at positions.
pub open spec fn by_property(
    rows: Seq<RowView>,
    key: Seq<char>,
    descending: bool,
) -> spec_fn(int, int) -> bool {
    |a: int, b: int| row_before(rows[a], rows[b], key, descending)
}

/// Rows in the order asked for; by note id where none is.
pub open spec fn ordered_rows(
    rows: Seq<RowView>,
    sort_by: Option<Seq<char>>,
    descending: bool,
) -> Seq<RowView> {
    match sort_by {
        Some(key) => stable_order(rows.len(), by_property(rows, key, descending)).map_values(
            |k: int| rows[k],
        ),
        None => rows,
    }
}

/// The entries from `i` on whose keys are selected.
pub open spec fn selected_from(
    e: Seq<(Seq<char>, JsonView)>,
    keys: Seq<Seq<char>>,
    i: int,
) -> Seq<(Seq<char>, JsonView)>
    decreases e.len() - i,
{
    if i < 0 || i >= e.len() {
        seq![]
    } else if keys.contains(e[i].0) {
        seq![e[i]] + selected_from(e, keys, i + 1)
    } else {
        selected_from(e, keys, i + 1)
    }
}

/// The properties that a row shows.
pub open spec fn shown_properties(
    e: Seq<(Seq<char>, JsonView)>,
    select: Option<Seq<Seq<char>>>,
) -> Seq<(Seq<char>, JsonView)> {
    match select {
        Some(keys) => selected_from(e, keys, 0),
        None => e,
    }
}

/// A row as JSON.
pub open spec fn row_json(
    note_id: Seq<char>,
    title: Seq<char>,
    properties: Seq<(Seq<char>, JsonView)>,
) -> JsonView {
    JsonView::Object(
        seq![
            ("note_id"@, JsonView::Text(note_id)),
            ("title"@, JsonView::Text(title)),
            ("properties"@, JsonView::Object(properties)),
        ],
    )
}

/// A row with its selected properties and its cost: the tokens of its JSON text.
pub open spec fn priced(r: RowView, select: Option<Seq<Seq<char>>>) -> RowView {
    let properties = shown_properties(r.properties, select);
    RowView {
        note_id: r.note_id,
        title: r.title,
        properties,
        token_count: token_estimate(json_text(row_json(r.note_id, r.title, properties))),
    }
}

/// The limit that an absent limit stands for.
pub open spec fn row_limit(l: Option<usize>) -> Option<usize> {
    match l {
        Some(n) => Some(n),
        None => Some(50),
    }
}

/// The token costs of rows.
pub open spec fn row_costs(rows: Seq<RowView>) -> Seq<nat> {
    rows.map_values(|r: RowView| r.token_count)
}

/// The model of an optional selection.
pub open spec fn select_view(s: Option<Vec<String>>) -> Option<Seq<Seq<char>>> {
    match s {
        Some(v) => Some(texts(v@)),
        None => None,
    }
}

/// The rows that a query weighs, priced, in order, up to the limit.
pub open spec fn candidate_rows(s: Seq<NoteView>, args: QueryView) -> Seq<RowView> {
    let rows = ordered_rows(
        matching_from(s, args.filters, 0),
        args.sort_by,
        args.descending,
    );
    first_of(rows, row_limit(args.limit)).map_values(|r: RowView| priced(r, args.select))
}

/// The answer of a query: of the rows in order, those that fit the budget.
pub open spec fn query_rows(s: Seq<NoteView>, args: QueryView) -> Seq<RowView> {
    let rows = candidate_rows(s, args);
    fit(row_costs(rows), budget_of(args.token_budget), 0, 0).map_values(|k: int| rows[k])
}

fn select_entries(e: &Vec<(String, Json)>, keys: &Vec<String>) -> (r: Vec<(String, Json)>)
    ensures
        json_entries(r@) == selected_from(json_entries(e@), texts(keys@), 0),
{
    let ghost all = json_entries(e@);
    let ghost ks = texts(keys@);
    let mut out: Vec<(String, Json)> = Vec::new();
    let mut i: usize = 0;
    assert(json_entries(out@) =~= seq![]);
    while i < e.len()
        invariant
            i <= e@.len(),
            all == json_entries(e@),
            ks == texts(keys@),
            selected_from(all, ks, 0) == json_entries(out@) + selected_from(all, ks, i as int),
        decreases e@.len() - i,
    {
        assert(all[i as int] == (e@[i as int].0@, e@[i as int].1@));
        if has_string(keys, e[i].0.as_str()) {
            let ghost prev = json_entries(out@);
            out.push((e[i].0.clone(), e[i].1.copy()));
            assert(json_entries(out@) =~= prev.push(all[i as int]));
            assert(prev + (seq![all[i as int]] + selected_from(all, ks, i + 1)) =~= json_entries(
                out@,
            ) + selected_from(all, ks, i + 1));
        }
        i = i + 1;
    }
    assert(json_entries(out@) + selected_from(all, ks, i as int) =~= json_entries(out@));
    out
}

fn price_row(row: &PropertiesRow, select: &Option<Vec<String>>) -> (r: PropertiesRow)
    ensures
        r@ == priced(row@, select_view(*select)),
{
    let properties = match select {
        Some(keys) => select_entries(&row.properties, keys),
        None => copy_json_entries(&row.properties),
    };
    let mut entries: Vec<(String, Json)> = Vec::new();
    entries.push(("note_id".to_owned(), Json::Text(row.note_id.clone())));
    entries.push(("title".to_owned(), Json::Text(row.title.clone())));
    let inner = Json::Object(copy_json_entries(&properties));
    proof {
        lemma_json_model(inner);
    }
    entries.push(("properties".to_owned(), inner));
    let whole = Json::Object(entries);
    proof {
        lemma_json_model(whole);
        assert(json_entries(entries@) =~= seq![
            ("note_id"@, JsonView::Text(row.note_id@)),
            ("title"@, JsonView::Text(row.title@)),
            ("properties"@, JsonView::Object(json_entries(properties@))),
        ]);
    }
    let text = render_json(&whole);
    let token_count: usize = estimate(text.as_str());
    PropertiesRow {
        note_id: row.note_id.clone(),
        title: row.title.clone(),
        properties,
        token_count,
    }
}

fn row_is_before(a: &PropertiesRow, b: &PropertiesRow, key: &str, descending: bool) -> (r: bool)
    ensures
        r == row_before(a@, b@, key@, descending),
{
    match entry_value(&a.properties, key) {
        Some(x) => match entry_value(&b.properties, key) {
            Some(y) => if descending {
                y.less(x)
            } else {
                x.less(y)
            },
            None => true,
        },
        None => false,
    }
}

fn matching_rows(index: &VaultIndex, filters: &Vec<PropFilter>) -> (r: Vec<PropertiesRow>)
    ensures
        rows_view(r@) == matching_from(index@, filters_view(filters@), 0),
{
    let ghost s = index@;
    let ghost fs = filters_view(filters@);
    let all = index.all();
    let mut out: Vec<PropertiesRow> = Vec::new();
    let mut i: usize = 0;
    assert(rows_view(out@) =~= seq![]);
    while i < all.len()
        invariant
            i <= all@.len(),
            s == index@,
            fs == filters_view(filters@),
            all@.len() == s.len(),
            forall|k: int| 0 <= k < all@.len() ==> (#[trigger] all@[k])@ == s[k],
            matching_from(s, fs, 0) == rows_view(out@) + matching_from(s, fs, i as int),
        decreases all@.len() - i,
    {
        assert(all@[i as int]@ == s[i as int]);
        let properties = json_properties(&all[i].frontmatter);
        if matches_all(&properties, filters) {
            let row = PropertiesRow {
                note_id: all[i].id.clone(),
                title: all[i].title.clone(),
                properties,
                token_count: 0,
            };
            let ghost rv = row@;
            let ghost prev = rows_view(out@);
            out.push(row);
            assert(rows_view(out@) =~= prev.push(rv));
            assert(prev + (seq![rv] + matching_from(s, fs, i + 1)) =~= rows_view(out@)
                + matching_from(s, fs, i + 1));
        }
        i = i + 1;
    }
    assert(rows_view(out@) + matching_from(s, fs, i as int) =~= rows_view(out@));
    out
}

fn row_order(rows: &Vec<PropertiesRow>, sort_by: &Option<String>, descending: bool) -> (r: Vec<usize>)
    ensures
        r@.len() == rows@.len(),
        forall|a: int| 0 <= a < r@.len() ==> #[trigger] r@[a] < rows@.len(),
        positions(r@).map_values(|k: int| rows_view(rows@)[k]) == ordered_rows(
            rows_view(rows@),
            opt_text(*sort_by),
            descending,
        ),
{
    let n: usize = rows.len();
    match sort_by {
        Some(key) => {
            let less = |a: usize, b: usize| -> (r: bool)
                requires
                    a < n,
                    b < n,
                    n == rows@.len(),
                ensures
                    r == by_property(rows_view(rows@), key@, descending)(a as int, b as int),
                { row_is_before(&rows[a], &rows[b], key.as_str(), descending) };
            sort_positions(n, less, Ghost(by_property(rows_view(rows@), key@, descending)))
        },
        None => {
            let mut out: Vec<usize> = Vec::new();
            let mut i: usize = 0;
            while i < n
                invariant
                    i <= n,
                    n == rows@.len(),
                    out@.len() == i,
                    forall|a: int| 0 <= a < i ==> #[trigger] out@[a] == a,
                decreases n - i,
            {
                out.push(i);
                i = i + 1;
            }
            assert(positions(out@).map_values(|k: int| rows_view(rows@)[k]) =~= rows_view(rows@));
            out
        },
    }
}

/// Queries notes by their typed properties. Deterministic: rows are ordered by
/// `sort_by` (or note id), then capped by `limit` and `token_budget`.
pub fn properties_query(index: &VaultIndex, args: &PropertiesQueryArgs) -> (r: Vec<PropertiesRow>)
    ensures
        rows_view(r@) == query_rows(index@, args@),
{
    let ghost s = index@;
    let found = matching_rows(index, &args.filters);
    let ghost fv = rows_view(found@);
    let order = row_order(&found, &args.sort_by, args.descending);
    let ghost ordered = ordered_rows(fv, opt_text(args.sort_by), args.descending);
    let n: usize = found.len();
    let limit: usize = match args.limit {
        Some(l) => l,
        None => 50,
    };
    let keep: usize = if limit < n {
        limit
    } else {
        n
    };
    let ghost sel = select_view(args.select);
    let ghost cand = candidate_rows(s, args@);
    assert(cand =~= ordered.take(keep as int).map_values(|r: RowView| priced(r, sel))) by {
        assert(ordered.len() == n);
        assert(first_of(ordered, row_limit(args.limit)) =~= ordered.take(keep as int));
    }
    let budget: usize = match args.token_budget {
        Some(b) => b,
        None => usize::MAX,
    };
    let ghost costs = row_costs(cand);
    let ghost chosen = fit(costs, budget as nat, 0, 0);
    let ghost mut picked: Seq<int> = seq![];
    let mut out: Vec<PropertiesRow> = Vec::new();
    let mut used: usize = 0;
    let mut k: usize = 0;
    assert(rows_view(out@) =~= seq![]);
    while k < keep
        invariant
            k <= keep <= n,
            n == found@.len(),
            used <= budget,
            fv == rows_view(found@),
            sel == select_view(args.select),
            order@.len() == n,
            forall|a: int| 0 <= a < order@.len() ==> #[trigger] order@[a] < n,
            ordered == positions(order@).map_values(|j: int| fv[j]),
            cand == ordered.take(keep as int).map_values(|r: RowView| priced(r, sel)),
            costs == row_costs(cand),
            chosen == fit(costs, budget as nat, 0, 0),
            chosen == picked + fit(costs, budget as nat, used as nat, k as int),
            rows_view(out@) == picked.map_values(|p: int| cand[p]),
        decreases keep - k,
    {
        let at: usize = order[k];
        assert(positions(order@)[k as int] == at as int);
        assert(fv[at as int] == found@[at as int]@);
        assert(ordered[k as int] == found@[at as int]@);
        let row = price_row(&found[at], &args.select);
        assert(cand[k as int] == row@);
        let cost: usize = row.token_count;
        if fits(used, cost, budget) {
            let ghost prev = rows_view(out@);
            let ghost was = picked;
            out.push(row);
            proof {
                picked = picked.push(k as int);
                assert(rows_view(out@) =~= prev.push(cand[k as int]));
                assert(rows_view(out@) =~= picked.map_values(|p: int| cand[p]));
                let rest = fit(costs, budget as nat, (used + cost) as nat, k + 1);
                assert(was + (seq![k as int] + rest) =~= picked + rest);
            }
            used = used + cost;
        }
        k = k + 1;
    }
    assert(picked + fit(costs, budget as nat, used as nat, k as int) =~= picked);
    out
}

/// A query answers with at most as many rows as the limit, and never with more
/// tokens than the budget.
pub proof fn law_query_keeps_limit_and_budget(s: Seq<NoteView>, args: QueryView)
    ensures
        query_rows(s, args).len() <= row_limit(args.limit)->0,
        total(row_costs(query_rows(s, args))) <= budget_of(args.token_budget),
{
    let rows = candidate_rows(s, args);
    let costs = row_costs(rows);
    let picked = fit(costs, budget_of(args.token_budget), 0, 0);
    law_fit_keeps_budget(costs, budget_of(args.token_budget), 0, 0);
    lemma_fit_len(costs, budget_of(args.token_budget), 0, 0);
    lemma_total_is_cost(costs, picked);
    assert(row_costs(query_rows(s, args)) =~= picked.map_values(|k: int| costs[k]));
}

/// Whether the values of a property are all numbers or all texts, where there
/// are any.
pub open spec fn comparable(rows: Seq<RowView>, key: Seq<char>) -> bool {
    forall|i: int, j: int|
        0 <= i < rows.len() && 0 <= j < rows.len() ==> (json_get(
            (#[trigger] rows[i]).properties,
            key,
        ) matches Some(x) ==> (json_get((#[trigger] rows[j]).properties, key) matches Some(y)
            ==> json_ordered(x, y)))
}

proof fn lemma_json_less_orders(a: JsonView, b: JsonView, c: JsonView)
    requires
        json_ordered(a, b),
        json_ordered(b, c),
        json_ordered(a, c),
    ensures
        json_less(a, b) ==> !json_less(b, a),
        json_less(a, c) ==> json_less(a, b) || json_less(b, c),
{
    match (a, b, c) {
        (JsonView::Text(x), JsonView::Text(y), JsonView::Text(z)) => {
            if before(x, y) {
                lemma_before_asym(x, y);
            }
            if before(x, z) && !before(x, y) && !before(y, z) {
                if before(y, x) {
                    if before(z, y) {
                        lemma_before_trans(z, y, x);
                        lemma_before_asym(x, z);
                    } else {
                        lemma_before_total(y, z);
                    }
                } else {
                    lemma_before_total(x, y);
                }
            }
        },
        _ => {},
    }
}

/// Sorting by a property whose values can be compared puts the rows in its
/// order, rows without it last, equal ones by note id.
pub proof fn law_sorted_rows_are_in_order(rows: Seq<RowView>, key: Seq<char>, descending: bool)
    requires
        comparable(rows, key),
    ensures
        ({
            let out = ordered_rows(rows, Some(key), descending);
            &&& out.len() == rows.len()
            &&& forall|a: int, b: int|
                0 <= a < b < out.len() ==> !row_before(
                    #[trigger] out[b],
                    #[trigger] out[a],
                    key,
                    descending,
                )
        }),
{
    let less = by_property(rows, key, descending);
    lemma_property_orders(rows, key, descending);
    law_stable_order(rows.len(), less);
    let order = stable_order(rows.len(), less);
    let out = ordered_rows(rows, Some(key), descending);
    assert forall|a: int, b: int| 0 <= a < b < out.len() implies !row_before(
        #[trigger] out[b],
        #[trigger] out[a],
        key,
        descending,
    ) by {
        assert(!less(order[b], order[a]));
    }
}

// ---------------------------------------------------------------------------
// What the conditions mean
// ---------------------------------------------------------------------------

/// Whether properties meet the condition that `key` compares with `value` by `op`.
pub open spec fn holds_of(
    props: Seq<(Seq<char>, JsonView)>,
    key: Seq<char>,
    op: PropOp,
    value: JsonView,
) -> bool {
    meets(props, PropFilterView { key, op, value: Some(value) })
}

/// Presence: a property exists or does not, and where it does not, nothing holds of
/// it but that. Where it does, it equals a value or differs from it.
pub proof fn law_a_missing_property_meets_nothing(
    props: Seq<(Seq<char>, JsonView)>,
    key: Seq<char>,
    op: PropOp,
    value: Option<JsonView>,
    e: JsonView,
)
    ensures
        meets(props, PropFilterView { key, op: PropOp::Exists, value }) <==> exists|k: int|
            0 <= k < props.len() && (#[trigger] props[k]).0 == key,
        meets(props, PropFilterView { key, op: PropOp::NotExists, value }) <==> forall|k: int|
            0 <= k < props.len() ==> (#[trigger] props[k]).0 != key,
        meets(props, PropFilterView { key, op, value }) && op != PropOp::NotExists ==> exists|k: int|
            0 <= k < props.len() && (#[trigger] props[k]).0 == key,
        meets(props, PropFilterView { key, op, value }) && value is None ==> op == PropOp::Exists
            || op == PropOp::NotExists,
        (exists|k: int| 0 <= k < props.len() && (#[trigger] props[k]).0 == key) ==> (holds_of(
            props,
            key,
            PropOp::Ne,
            e,
        ) <==> !holds_of(props, key, PropOp::Eq, e)),
{
    law_a_key_reads_its_first_entry(props, key, 0);
}

/// Order: where a property can be compared with a value, as two numbers or as two
/// texts, it is greater, less or equal, and only one of these. It is greater exactly
/// where it is not at most the value, and less exactly where it is not at least the
/// value. Where the two cannot be compared none of the four holds.
pub proof fn law_comparisons_are_an_order(
    props: Seq<(Seq<char>, JsonView)>,
    key: Seq<char>,
    e: JsonView,
)
    requires
        json_get(props, key) is Some,
    ensures
        ({
            let a = json_get(props, key)->0;
            let gt = holds_of(props, key, PropOp::Gt, e);
            let lt = holds_of(props, key, PropOp::Lt, e);
            let gte = holds_of(props, key, PropOp::Gte, e);
            let lte = holds_of(props, key, PropOp::Lte, e);
            let eq = holds_of(props, key, PropOp::Eq, e);
            if (a is Number && e is Number) || (a is Text && e is Text) {
                &&& gt <==> !lte
                &&& lt <==> !gte
                &&& gte <==> gt || eq
                &&& lte <==> lt || eq
                &&& !(gt && lt) && !(gt && eq) && !(lt && eq)
                &&& gt || lt || eq
            } else {
                !gt && !lt && !gte && !lte
            }
        }),
{
    let a = json_get(props, key)->0;
    match (a, e) {
        (JsonView::Text(x), JsonView::Text(y)) => {
            if before(x, y) {
                lemma_before_asym(x, y);
            }
            if before(y, x) {
                lemma_before_asym(y, x);
            }
            if !before(x, y) && !before(y, x) {
                lemma_before_total(x, y);
            }
        },
        _ => {},
    }
}

/// Two values read against each other: the one is greater than the other exactly
/// where the other is less than it, and the same of at least and at most.
pub proof fn law_comparisons_turn_round(
    props: Seq<(Seq<char>, JsonView)>,
    others: Seq<(Seq<char>, JsonView)>,
    key: Seq<char>,
    a: JsonView,
    e: JsonView,
)
    requires
        json_get(props, key) == Some(a),
        json_get(others, key) == Some(e),
    ensures
        holds_of(props, key, PropOp::Gt, e) <==> holds_of(others, key, PropOp::Lt, a),
        holds_of(props, key, PropOp::Gte, e) <==> holds_of(others, key, PropOp::Lte, a),
{
}

/// Numbers compare by value, whatever their kind: as doubles, and whole ones as the
/// numbers that they are.
pub proof fn law_numbers_compare_by_value(
    props: Seq<(Seq<char>, JsonView)>,
    key: Seq<char>,
    e: JsonView,
    i: int,
    j: int,
)
    requires
        json_get(props, key) matches Some(a) && a is Number,
        e is Number,
    ensures
        ({
            let x = json_get(props, key)->0->Number_0;
            let y = e->Number_0;
            &&& holds_of(props, key, PropOp::Gt, e) <==> double_value(x.bits) > double_value(y.bits)
            &&& holds_of(props, key, PropOp::Lt, e) <==> double_value(x.bits) < double_value(y.bits)
            &&& holds_of(props, key, PropOp::Eq, e) <==> double_value(x.bits) == double_value(y.bits)
            &&& is_number(x.bits, i) && is_number(y.bits, j) ==> {
                &&& holds_of(props, key, PropOp::Gt, e) <==> i > j
                &&& holds_of(props, key, PropOp::Gte, e) <==> i >= j
                &&& holds_of(props, key, PropOp::Lt, e) <==> i < j
                &&& holds_of(props, key, PropOp::Lte, e) <==> i <= j
                &&& holds_of(props, key, PropOp::Eq, e) <==> i == j
            }
        }),
{
    let x = json_get(props, key)->0->Number_0;
    let y = e->Number_0;
    law_doubles_rank_by_value(x.bits, y.bits);
    law_doubles_rank_by_value(y.bits, x.bits);
    if is_number(x.bits, i) && is_number(y.bits, j) {
        law_whole_doubles_rank_as_numbers(x.bits, y.bits, i, j);
        law_whole_doubles_rank_as_numbers(y.bits, x.bits, j, i);
    }
}

/// Texts compare by code point: greater is the one that goes on or has the larger
/// character behind what the two share at their start.
pub proof fn law_texts_compare_by_code_point(
    props: Seq<(Seq<char>, JsonView)>,
    key: Seq<char>,
    a: Seq<char>,
    e: Seq<char>,
)
    requires
        json_get(props, key) == Some(JsonView::Text(a)),
    ensures
        holds_of(props, key, PropOp::Gt, JsonView::Text(e)) <==> exists|k: int|
            #[trigger] differs_at(e, a, k),
        holds_of(props, key, PropOp::Lt, JsonView::Text(e)) <==> exists|k: int|
            #[trigger] differs_at(a, e, k),
        holds_of(props, key, PropOp::Eq, JsonView::Text(e)) <==> a == e,
        holds_of(props, key, PropOp::Contains, JsonView::Text(e)) <==> exists|k: int|
            0 <= k && k + lowercase(e).len() <= lowercase(a).len() && #[trigger] lowercase(
                a,
            ).subrange(k, k + lowercase(e).len()) == lowercase(e),
{
    law_the_first_difference_orders(a, e);
    law_the_first_difference_orders(e, a);
    lemma_holds_part(lowercase(a), lowercase(e));
}

/// A list holds a value exactly where one of its items equals it, as that item alone
/// would under the key. Nothing but a list or a text holds anything.
pub proof fn law_a_list_contains_its_items(
    props: Seq<(Seq<char>, JsonView)>,
    key: Seq<char>,
    e: JsonView,
)
    requires
        json_get(props, key) is Some,
    ensures
        json_get(props, key)->0 matches JsonView::List(items) ==> (holds_of(
            props,
            key,
            PropOp::Contains,
            e,
        ) <==> exists|k: int|
            0 <= k < items.len() && holds_of(seq![(key, #[trigger] items[k])], key, PropOp::Eq, e)),
        holds_of(props, key, PropOp::Contains, e) ==> json_get(props, key)->0 is List || (json_get(
            props,
            key,
        )->0 is Text && e is Text),
{
    if let JsonView::List(items) = json_get(props, key)->0 {
        assert forall|k: int| 0 <= k < items.len() implies (holds_of(
            seq![(key, #[trigger] items[k])],
            key,
            PropOp::Eq,
            e,
        ) <==> json_equal(items[k], e)) by {
            let one = seq![(key, items[k])];
            law_a_key_reads_its_first_entry(one, key, 0);
            assert(json_get(one, key) == Some(one[0].1));
        }
    }
}

// ---------------------------------------------------------------------------
// What a query answers
// ---------------------------------------------------------------------------

proof fn lemma_matching_at(s: Seq<NoteView>, fs: Seq<PropFilterView>, i: int) -> (at: Seq<int>)
    requires
        0 <= i <= s.len(),
    ensures
        at.len() == matching_from(s, fs, i).len(),
        ascends(at),
        forall|a: int|
            0 <= a < at.len() ==> {
                &&& i <= #[trigger] at[a] < s.len()
                &&& meets_all(properties_of(s[at[a]].frontmatter), fs)
                &&& matching_from(s, fs, i)[a].note_id == s[at[a]].id
                &&& matching_from(s, fs, i)[a].title == s[at[a]].title
                &&& matching_from(s, fs, i)[a].properties == properties_of(s[at[a]].frontmatter)
            },
        forall|p: int|
            i <= p < s.len() && meets_all(properties_of((#[trigger] s[p]).frontmatter), fs)
                ==> at.contains(p),
    decreases s.len() - i,
{
    if i < s.len() {
        let rest = lemma_matching_at(s, fs, i + 1);
        if meets_all(properties_of(s[i].frontmatter), fs) {
            let at = seq![i] + rest;
            lemma_ascends_front(i, rest);
            let rows = matching_from(s, fs, i);
            let more = matching_from(s, fs, i + 1);
            assert forall|a: int| 0 <= a < at.len() implies {
                &&& i <= #[trigger] at[a] < s.len()
                &&& meets_all(properties_of(s[at[a]].frontmatter), fs)
                &&& rows[a].note_id == s[at[a]].id
                &&& rows[a].title == s[at[a]].title
                &&& rows[a].properties == properties_of(s[at[a]].frontmatter)
            } by {
                if a > 0 {
                    assert(at[a] == rest[a - 1]);
                    assert(rows[a] == more[a - 1]);
                }
            }
            assert forall|p: int|
                i <= p < s.len() && meets_all(
                    properties_of((#[trigger] s[p]).frontmatter),
                    fs,
                ) implies at.contains(p) by {
                if p == i {
                    assert(at[0] == p);
                } else {
                    assert(rest.contains(p));
                    let a = choose|a: int| 0 <= a < rest.len() && rest[a] == p;
                    assert(at[a + 1] == p);
                }
            }
            at
        } else {
            rest
        }
    } else {
        seq![]
    }
}

/// The order in which a query takes up the notes at `a` and `b`: none where no
/// property is named, so by place. By a property the one with the smaller value,
/// or the greater where they descend, comes first, and one without it last.
pub open spec fn taken_first(s: Seq<NoteView>, args: QueryView, a: int, b: int) -> bool {
    match args.sort_by {
        Some(key) => match (
            json_get(properties_of(s[a].frontmatter), key),
            json_get(properties_of(s[b].frontmatter), key),
        ) {
            (Some(x), Some(y)) => if args.descending {
                json_less(y, x) || !json_less(x, y) && a < b
            } else {
                json_less(x, y) || !json_less(y, x) && a < b
            },
            (Some(_), None) => true,
            (None, Some(_)) => false,
            (None, None) => a < b,
        },
        None => a < b,
    }
}

/// Whether the values that the notes have of a property can all be compared.
pub open spec fn all_comparable(s: Seq<NoteView>, key: Seq<char>) -> bool {
    forall|i: int, j: int|
        0 <= i < s.len() && 0 <= j < s.len() ==> (json_get(
            properties_of((#[trigger] s[i]).frontmatter),
            key,
        ) matches Some(x) ==> (json_get(properties_of((#[trigger] s[j]).frontmatter), key) matches Some(y)
            ==> json_ordered(x, y)))
}

proof fn lemma_property_orders(rows: Seq<RowView>, key: Seq<char>, descending: bool)
    requires
        comparable(rows, key),
    ensures
        weak_order(rows.len(), by_property(rows, key, descending)),
{
    let less = by_property(rows, key, descending);
    assert forall|i: int, j: int| 0 <= i < rows.len() && 0 <= j < rows.len() && #[trigger] less(
        i,
        j,
    ) implies !less(j, i) by {
        match (json_get(rows[i].properties, key), json_get(rows[j].properties, key)) {
            (Some(x), Some(y)) => {
                assert(json_ordered(x, y));
                lemma_json_less_orders(x, y, y);
                lemma_json_less_orders(y, x, x);
            },
            _ => {},
        }
    }
    assert forall|i: int, j: int, k: int|
        0 <= i < rows.len() && 0 <= j < rows.len() && 0 <= k < rows.len() && #[trigger] less(
            i,
            k,
        ) implies #[trigger] less(i, j) || less(j, k) by {
        match (
            json_get(rows[i].properties, key),
            json_get(rows[j].properties, key),
            json_get(rows[k].properties, key),
        ) {
            (Some(x), Some(y), Some(z)) => {
                assert(json_ordered(x, y) && json_ordered(y, z) && json_ordered(x, z));
                lemma_json_less_orders(x, y, z);
                lemma_json_less_orders(z, y, x);
            },
            _ => {},
        }
    }
}

proof fn lemma_ordered_at(s: Seq<NoteView>, args: QueryView) -> (at: Seq<int>)
    requires
        args.sort_by matches Some(key) ==> all_comparable(s, key),
    ensures
        ({
            let rows = ordered_rows(
                matching_from(s, args.filters, 0),
                args.sort_by,
                args.descending,
            );
            &&& at.len() == rows.len()
            &&& forall|a: int|
                0 <= a < at.len() ==> {
                    &&& 0 <= #[trigger] at[a] < s.len()
                    &&& meets_all(properties_of(s[at[a]].frontmatter), args.filters)
                    &&& rows[a].note_id == s[at[a]].id
                    &&& rows[a].title == s[at[a]].title
                    &&& rows[a].properties == properties_of(s[at[a]].frontmatter)
                }
            &&& forall|a: int, b: int|
                0 <= a < b < at.len() ==> taken_first(s, args, #[trigger] at[a], #[trigger] at[b])
            &&& forall|p: int|
                0 <= p < s.len() && meets_all(
                    properties_of((#[trigger] s[p]).frontmatter),
                    args.filters,
                ) ==> at.contains(p)
        }),
{
    let found = matching_from(s, args.filters, 0);
    let from = lemma_matching_at(s, args.filters, 0);
    match args.sort_by {
        None => {
            from
        },
        Some(key) => {
            let less = by_property(found, key, args.descending);
            let order = stable_order(found.len(), less);
            assert(comparable(found, key)) by {
                assert forall|i: int, j: int|
                    0 <= i < found.len() && 0 <= j < found.len() implies (json_get(
                    (#[trigger] found[i]).properties,
                    key,
                ) matches Some(x) ==> (json_get((#[trigger] found[j]).properties, key) matches Some(y)
                    ==> json_ordered(x, y))) by {
                    assert(0 <= from[i] < s.len() && 0 <= from[j] < s.len());
                    assert(s[from[i]] == s[from[i]] && s[from[j]] == s[from[j]]);
                }
            }
            lemma_property_orders(found, key, args.descending);
            law_stable_order(found.len(), less);
            let at = order.map_values(|k: int| from[k]);
            assert forall|a: int| 0 <= a < at.len() implies 0 <= #[trigger] at[a] < s.len()
                && at[a] == from[order[a]] by {
                assert(0 <= order[a] < found.len());
            }
            assert forall|a: int, b: int| 0 <= a < b < at.len() implies taken_first(
                s,
                args,
                #[trigger] at[a],
                #[trigger] at[b],
            ) by {
                let x = order[a];
                let y = order[b];
                assert(x != y && !less(y, x) && (!less(x, y) ==> x < y));
                assert(found[x].properties == properties_of(s[from[x]].frontmatter));
                assert(found[y].properties == properties_of(s[from[y]].frontmatter));
                if x < y {
                    assert(from[x] < from[y]);
                }
            }
            assert forall|p: int|
                0 <= p < s.len() && meets_all(
                    properties_of((#[trigger] s[p]).frontmatter),
                    args.filters,
                ) implies at.contains(p) by {
                let k = choose|k: int| 0 <= k < from.len() && from[k] == p;
                lemma_stable_order_has(found.len(), less, k);
                let a = choose|a: int| 0 <= a < order.len() && order[a] == k;
                assert(at[a] == p);
            }
            at
        },
    }
}

proof fn lemma_selected(e: Seq<(Seq<char>, JsonView)>, keys: Seq<Seq<char>>, i: int) -> (at: Seq<int>)
    requires
        0 <= i <= e.len(),
    ensures
        at.len() == selected_from(e, keys, i).len(),
        ascends(at),
        forall|a: int|
            0 <= a < at.len() ==> i <= #[trigger] at[a] < e.len() && keys.contains(e[at[a]].0)
                && selected_from(e, keys, i)[a] == e[at[a]],
        forall|p: int| i <= p < e.len() && keys.contains((#[trigger] e[p]).0) ==> at.contains(p),
    decreases e.len() - i,
{
    if i < e.len() {
        let rest = lemma_selected(e, keys, i + 1);
        if keys.contains(e[i].0) {
            let at = seq![i] + rest;
            lemma_ascends_front(i, rest);
            assert forall|a: int| 0 <= a < at.len() implies i <= #[trigger] at[a] < e.len()
                && keys.contains(e[at[a]].0) && selected_from(e, keys, i)[a] == e[at[a]] by {
                if a > 0 {
                    assert(at[a] == rest[a - 1]);
                }
            }
            assert forall|p: int| i <= p < e.len() && keys.contains(
                (#[trigger] e[p]).0,
            ) implies at.contains(p) by {
                if p == i {
                    assert(at[0] == p);
                } else {
                    assert(rest.contains(p));
                    let a = choose|a: int| 0 <= a < rest.len() && rest[a] == p;
                    assert(at[a + 1] == p);
                }
            }
            at
        } else {
            rest
        }
    } else {
        seq![]
    }
}

/// A selection shows exactly the properties whose keys it names, in their order and
/// with their values. `at` says which of the properties are shown.
pub proof fn law_a_selection_shows_what_it_names(
    e: Seq<(Seq<char>, JsonView)>,
    keys: Seq<Seq<char>>,
) -> (at: Seq<int>)
    ensures
        at.len() == shown_properties(e, Some(keys)).len(),
        ascends(at),
        forall|a: int|
            0 <= a < at.len() ==> 0 <= #[trigger] at[a] < e.len() && shown_properties(
                e,
                Some(keys),
            )[a] == e[at[a]],
        forall|p: int|
            0 <= p < e.len() ==> (at.contains(p) <==> keys.contains((#[trigger] e[p]).0)),
        shown_properties(e, None) == e,
{
    let at = lemma_selected(e, keys, 0);
    at
}

/// What a query answers: each row is a note that meets every condition, with its id,
/// its title and those of its properties that are shown. Rows come by the property
/// to sort by where its values can be compared, and no note comes twice. `at` says
/// which note each row is.
pub proof fn law_a_query_answers_with_matching_notes(s: Seq<NoteView>, args: QueryView) -> (at: Seq<
    int,
>)
    requires
        args.sort_by matches Some(key) ==> all_comparable(s, key),
    ensures
        ({
            let rows = query_rows(s, args);
            &&& at.len() == rows.len()
            &&& forall|a: int|
                0 <= a < at.len() ==> {
                    let shown = json_text(
                        row_json(rows[a].note_id, rows[a].title, rows[a].properties),
                    ).len();
                    &&& 0 <= #[trigger] at[a] < s.len()
                    &&& forall|k: int|
                        0 <= k < args.filters.len() ==> meets(
                            properties_of(s[at[a]].frontmatter),
                            #[trigger] args.filters[k],
                        )
                    &&& rows[a].note_id == s[at[a]].id
                    &&& rows[a].title == s[at[a]].title
                    &&& rows[a].properties == shown_properties(
                        properties_of(s[at[a]].frontmatter),
                        args.select,
                    )
                    &&& shown <= 4 * rows[a].token_count < shown + 4
                }
            &&& forall|a: int, b: int|
                0 <= a < b < at.len() ==> taken_first(s, args, #[trigger] at[a], #[trigger] at[b])
        }),
{
    let all = lemma_ordered_at(s, args);
    let ordered = ordered_rows(
        matching_from(s, args.filters, 0),
        args.sort_by,
        args.descending,
    );
    let top = first_of(ordered, row_limit(args.limit));
    let rows = candidate_rows(s, args);
    let costs = row_costs(rows);
    let picked = fit(costs, budget_of(args.token_budget), 0, 0);
    law_fit_keeps_budget(costs, budget_of(args.token_budget), 0, 0);
    let at = picked.map_values(|k: int| all[k]);
    let out = query_rows(s, args);
    assert forall|a: int| 0 <= a < at.len() implies {
        &&& 0 <= #[trigger] at[a] < s.len()
        &&& meets_all(properties_of(s[at[a]].frontmatter), args.filters)
        &&& out[a] == priced(top[picked[a]], args.select)
        &&& top[picked[a]].note_id == s[at[a]].id
        &&& top[picked[a]].title == s[at[a]].title
        &&& top[picked[a]].properties == properties_of(s[at[a]].frontmatter)
    } by {
        let p = picked[a];
        assert(top[p] == ordered[p]);
        assert(all[p] == at[a]);
        assert(out[a] == rows[p]);
    }
    assert forall|a: int, b: int| 0 <= a < b < at.len() implies taken_first(
        s,
        args,
        #[trigger] at[a],
        #[trigger] at[b],
    ) by {
        assert(picked[a] < picked[b]);
        assert(all[picked[a]] == at[a] && all[picked[b]] == at[b]);
    }
    at
}

/// A query leaves nothing out where neither its limit nor its budget stands against
/// it: every note that meets all conditions has a row.
pub proof fn law_a_query_leaves_no_match_out(s: Seq<NoteView>, args: QueryView, p: int)
    requires
        0 <= p < s.len(),
        forall|k: int|
            0 <= k < args.filters.len() ==> meets(
                properties_of(s[p].frontmatter),
                #[trigger] args.filters[k],
            ),
        args.sort_by matches Some(key) ==> all_comparable(s, key),
        s.len() <= match args.limit {
            Some(n) => n as int,
            None => 50,
        },
        total(row_costs(candidate_rows(s, args))) <= budget_of(args.token_budget),
    ensures
        exists|a: int|
            0 <= a < query_rows(s, args).len() && (#[trigger] query_rows(s, args)[a]).note_id == s[p].id,
{
    let all = lemma_ordered_at(s, args);
    let found = matching_from(s, args.filters, 0);
    let ordered = ordered_rows(found, args.sort_by, args.descending);
    let rows = candidate_rows(s, args);
    let costs = row_costs(rows);
    let picked = fit(costs, budget_of(args.token_budget), 0, 0);
    let out = query_rows(s, args);
    assert(meets_all(properties_of(s[p].frontmatter), args.filters));
    let k = choose|k: int| 0 <= k < all.len() && all[k] == p;
    lemma_matching_len(s, args.filters, 0);
    if let Some(key) = args.sort_by {
        lemma_stable_order_range(found.len(), by_property(found, key, args.descending));
    }
    assert(first_of(ordered, row_limit(args.limit)) =~= ordered);
    assert(costs.skip(0) =~= costs);
    lemma_all_fit(costs, budget_of(args.token_budget), 0, 0);
    assert(picked.contains(k));
    let a = choose|a: int| 0 <= a < picked.len() && picked[a] == k;
    assert(out[a] == rows[k]);
    assert(rows[k] == priced(ordered[k], args.select));
    assert(out[a].note_id == s[all[k]].id);
}

proof fn lemma_matching_len(s: Seq<NoteView>, fs: Seq<PropFilterView>, i: int)
    requires
        0 <= i <= s.len(),
    ensures
        matching_from(s, fs, i).len() <= s.len() - i,
    decreases s.len() - i,
{
    if i < s.len() {
        lemma_matching_len(s, fs, i + 1);
    }
}

proof fn lemma_holds_part(text: Seq<char>, part: Seq<char>)
    ensures
        holds(text, part) <==> exists|k: int|
            0 <= k && k + part.len() <= text.len() && #[trigger] text.subrange(k, k + part.len())
                == part,
{
    lemma_next_match(text, part, 0);
    if holds(text, part) {
        let k = next_match(text, part, 0)->0;
        assert(text.subrange(k, k + part.len()) == part);
    }
    if exists|k: int|
        0 <= k && k + part.len() <= text.len() && #[trigger] text.subrange(k, k + part.len()) == part {
        let k = choose|k: int|
            0 <= k && k + part.len() <= text.len() && #[trigger] text.subrange(k, k + part.len())
                == part;
        assert(matches_at(text, part, k));
    }
}

} // verus!
