//! JSON values as plain data, equality and order of them.
use crate::order::{before, str_before};
use crate::text::str_eq;
use crate::vault::value::{yaml_plain, yaml_contents, yaml_made, yaml_outside, Yaml, YamlView};
use vstd::prelude::*;
use vstd::string::*;

verus! {

/// A JSON number: whether it is whole, its text, and the bits of the double
/// that it is compared by.
#[derive(Debug)]
pub struct JsonNumber {
    pub whole: bool,
    pub text: String,
    pub bits: u64,
}

/// A JSON value.
#[derive(Debug)]
pub enum Json {
    Null,
    Bool(bool),
    Number(JsonNumber),
    Text(String),
    List(Vec<Json>),
    Object(Vec<(String, Json)>),
}

/// The model of a JSON number.
#[verifier::ext_equal]
pub struct JsonNumberView {
    pub whole: bool,
    pub text: Seq<char>,
    pub bits: u64,
}

/// The model of a JSON value.
#[verifier::ext_equal]
pub enum JsonView {
    Null,
    Bool(bool),
    Number(JsonNumberView),
    Text(Seq<char>),
    List(Seq<JsonView>),
    Object(Seq<(Seq<char>, JsonView)>),
}

impl View for JsonNumber {
    type V = JsonNumberView;

    open spec fn view(&self) -> JsonNumberView {
        JsonNumberView { whole: self.whole, text: self.text@, bits: self.bits }
    }
}

impl JsonNumber {
    /// A copy of the number.
    pub fn copy(&self) -> (r: JsonNumber)
        ensures
            r@ == self@,
    {
        JsonNumber { whole: self.whole, text: self.text.clone(), bits: self.bits }
    }
}

impl Json {
    /// The model of the value.
    pub open spec fn model(self) -> JsonView
        decreases self,
    {
        match self {
            Json::Null => JsonView::Null,
            Json::Bool(b) => JsonView::Bool(b),
            Json::Number(n) => JsonView::Number(n@),
            Json::Text(s) => JsonView::Text(s@),
            Json::List(v) => JsonView::List(
                Seq::new(
                    v@.len(),
                    |i: int|
                        if 0 <= i < v@.len() {
                            v@[i].model()
                        } else {
                            JsonView::Null
                        },
                ),
            ),
            Json::Object(v) => JsonView::Object(
                Seq::new(
                    v@.len(),
                    |i: int|
                        if 0 <= i < v@.len() {
                            (v@[i].0@, v@[i].1.model())
                        } else {
                            (seq![], JsonView::Null)
                        },
                ),
            ),
        }
    }
}

impl View for Json {
    type V = JsonView;

    open spec fn view(&self) -> JsonView {
        self.model()
    }
}

/// The model of the items of a list.
pub open spec fn json_items(v: Seq<Json>) -> Seq<JsonView> {
    v.map_values(|j: Json| j@)
}

/// The model of the entries of an object.
pub open spec fn json_entries(v: Seq<(String, Json)>) -> Seq<(Seq<char>, JsonView)> {
    v.map_values(|e: (String, Json)| (e.0@, e.1@))
}

pub(crate) proof fn lemma_json_model(j: Json)
    ensures
        j matches Json::List(v) ==> j@ == JsonView::List(json_items(v@)),
        j matches Json::Object(v) ==> j@ == JsonView::Object(json_entries(v@)),
{
    match j {
        Json::List(v) => {
            assert(j@->List_0 =~= json_items(v@));
        },
        Json::Object(v) => {
            assert(j@->Object_0 =~= json_entries(v@));
        },
        _ => {},
    }
}

// ---------------------------------------------------------------------------
// In and out of `serde_json`
// ---------------------------------------------------------------------------

/// What a value of `serde_json` holds.
pub uninterp spec fn json_contents(v: serde_json::Value) -> JsonView;

/// The JSON value of a YAML value, as `serde_json::to_value` makes it; `None`
/// where it fails (a mapping with a key that JSON cannot have).
pub uninterp spec fn yaml_as_json(y: YamlView) -> Option<JsonView>;

/// `serde_json::to_value` of a YAML value.
#[verifier::external_body]
fn yaml_to_json(v: &serde_yaml::Value) -> (r: Option<serde_json::Value>)
    ensures
        match r {
            Some(j) => yaml_as_json(yaml_contents(*v)) == Some(json_contents(j)),
            None => yaml_as_json(yaml_contents(*v)) is None,
        },
{
    serde_json::to_value(v).ok()
}

/// The outermost level of a value of `serde_json`.
enum JsonNode<'a> {
    Null,
    Bool(bool),
    /// Whether it has a fraction or an exponent, its text, and the bits of the
    /// double that it is.
    Number(bool, String, Option<u64>),
    Text(String),
    List(&'a Vec<serde_json::Value>),
    Object(Vec<(&'a String, &'a serde_json::Value)>),
}

spec fn all_contents(v: Seq<serde_json::Value>) -> Seq<JsonView> {
    v.map_values(|x: serde_json::Value| json_contents(x))
}

spec fn pair_contents(v: Seq<(&String, &serde_json::Value)>) -> Seq<(Seq<char>, JsonView)> {
    v.map_values(|e: (&String, &serde_json::Value)| (e.0@, json_contents(*e.1)))
}

/// The value whose outermost level this is.
spec fn node_contents(n: JsonNode<'_>) -> JsonView {
    match n {
        JsonNode::Null => JsonView::Null,
        JsonNode::Bool(b) => JsonView::Bool(b),
        JsonNode::Number(fraction, text, bits) => JsonView::Number(
            JsonNumberView {
                whole: !fraction,
                text: text@,
                bits: match bits {
                    Some(b) => b,
                    None => 0,
                },
            },
        ),
        JsonNode::Text(s) => JsonView::Text(s@),
        JsonNode::List(v) => JsonView::List(all_contents(v@)),
        JsonNode::Object(v) => JsonView::Object(pair_contents(v@)),
    }
}

/// Tells the variants of `serde_json::Value` apart. An object gives its entries
/// in the order of its map (`Map::iter`), and a number what `is_f64`, its
/// `Display` form and `as_f64` make of it.
#[verifier::external_body]
fn json_node<'a>(v: &'a serde_json::Value) -> (r: JsonNode<'a>)
    ensures
        json_contents(*v) == node_contents(r),
{
    match v {
        serde_json::Value::Null => JsonNode::Null,
        serde_json::Value::Bool(b) => JsonNode::Bool(*b),
        serde_json::Value::Number(n) => {
            JsonNode::Number(n.is_f64(), n.to_string(), n.as_f64().map(|x| x.to_bits()))
        },
        serde_json::Value::String(s) => JsonNode::Text(s.clone()),
        serde_json::Value::Array(v) => JsonNode::List(v),
        serde_json::Value::Object(m) => JsonNode::Object(m.iter().collect()),
    }
}

/// The plain form of a value of `serde_json`.
pub(crate) fn json_plain(v: &serde_json::Value) -> (r: Json)
    ensures
        r@ == json_contents(*v),
    decreases json_contents(*v),
{
    let ghost whole = json_contents(*v);
    match json_node(v) {
        JsonNode::Null => Json::Null,
        JsonNode::Bool(b) => Json::Bool(b),
        JsonNode::Number(fraction, text, bits) => Json::Number(
            JsonNumber {
                whole: !fraction,
                text,
                bits: match bits {
                    Some(b) => b,
                    None => 0,
                },
            },
        ),
        JsonNode::Text(s) => Json::Text(s),
        JsonNode::List(items) => {
            let ghost all = all_contents(items@);
            let mut out: Vec<Json> = Vec::new();
            let mut i: usize = 0;
            while i < items.len()
                invariant
                    i <= items@.len(),
                    whole == json_contents(*v),
                    whole == JsonView::List(all),
                    all == all_contents(items@),
                    json_items(out@) == all.take(i as int),
                decreases items@.len() - i,
            {
                assert(all[i as int] == json_contents(items@[i as int]));
                assert(decreases_to!(whole => whole->List_0[i as int]));
                let j = json_plain(&items[i]);
                let ghost prev = json_items(out@);
                out.push(j);
                assert(json_items(out@) =~= prev.push(all[i as int]));
                assert(all.take(i + 1) =~= all.take(i as int).push(all[i as int]));
                i = i + 1;
            }
            assert(all.take(i as int) =~= all);
            let r = Json::List(out);
            proof {
                lemma_json_model(r);
            }
            r
        },
        JsonNode::Object(pairs) => {
            let ghost all = pair_contents(pairs@);
            let mut out: Vec<(String, Json)> = Vec::new();
            let mut i: usize = 0;
            while i < pairs.len()
                invariant
                    i <= pairs@.len(),
                    whole == json_contents(*v),
                    whole == JsonView::Object(all),
                    all == pair_contents(pairs@),
                    json_entries(out@) == all.take(i as int),
                decreases pairs@.len() - i,
            {
                assert(all[i as int] == (pairs@[i as int].0@, json_contents(*pairs@[i as int].1)));
                assert(decreases_to!(whole => whole->Object_0[i as int].1));
                let j = json_plain(pairs[i].1);
                let ghost prev = json_entries(out@);
                out.push((pairs[i].0.clone(), j));
                assert(json_entries(out@) =~= prev.push(all[i as int]));
                assert(all.take(i + 1) =~= all.take(i as int).push(all[i as int]));
                i = i + 1;
            }
            assert(all.take(i as int) =~= all);
            let r = Json::Object(out);
            proof {
                lemma_json_model(r);
            }
            r
        },
    }
}

/// The number that a text stands for, as `serde_json::Number` reads it; `None`
/// where it rejects the text.
pub uninterp spec fn json_number_read(text: Seq<char>) -> Option<JsonView>;

/// `str::parse` into a `serde_json::Number`, as a value.
#[verifier::external_body]
fn json_number(text: &str) -> (r: Option<serde_json::Value>)
    ensures
        match r {
            Some(v) => json_number_read(text@) == Some(json_contents(v)),
            None => json_number_read(text@) is None,
        },
{
    text.parse().ok().map(serde_json::Value::Number)
}

/// The entries of the `serde_json::Map` that is collected from entries, in the
/// order of the map.
pub uninterp spec fn object_made(entries: Seq<(Seq<char>, JsonView)>) -> Seq<
    (Seq<char>, JsonView),
>;

/// Whether the keys ascend.
pub open spec fn keys_ascend(entries: Seq<(Seq<char>, JsonView)>) -> bool {
    forall|i: int, j: int|
        0 <= i < j < entries.len() ==> before((#[trigger] entries[i]).0, (#[trigger] entries[j]).0)
}

/// The outermost level of a value of `serde_json` that is to be made.
enum JsonBuild {
    Null,
    Bool(bool),
    Text(String),
    List(Vec<serde_json::Value>),
    Object(Vec<(String, serde_json::Value)>),
}

spec fn entry_contents(v: Seq<(String, serde_json::Value)>) -> Seq<(Seq<char>, JsonView)> {
    v.map_values(|e: (String, serde_json::Value)| (e.0@, json_contents(e.1)))
}

/// The value that is made.
spec fn build_contents(b: JsonBuild) -> JsonView {
    match b {
        JsonBuild::Null => JsonView::Null,
        JsonBuild::Bool(b) => JsonView::Bool(b),
        JsonBuild::Text(s) => JsonView::Text(s@),
        JsonBuild::List(v) => JsonView::List(all_contents(v@)),
        JsonBuild::Object(v) => JsonView::Object(object_made(entry_contents(v@))),
    }
}

/// The variants of `serde_json::Value`. An object is collected from its entries
/// (`Map::from_iter`); where their keys ascend, the map has them as they are.
#[verifier::external_body]
fn json_build(b: JsonBuild) -> (r: serde_json::Value)
    ensures
        json_contents(r) == build_contents(b),
        b matches JsonBuild::Object(v) ==> json_contents(r) == JsonView::Object(
            object_made(entry_contents(v@)),
        ),
        b matches JsonBuild::Object(v) ==> keys_ascend(entry_contents(v@)) ==> json_contents(r)
            == JsonView::Object(entry_contents(v@)),
{
    match b {
        JsonBuild::Null => serde_json::Value::Null,
        JsonBuild::Bool(b) => serde_json::Value::Bool(b),
        JsonBuild::Text(s) => serde_json::Value::String(s),
        JsonBuild::List(v) => serde_json::Value::Array(v),
        JsonBuild::Object(v) => serde_json::Value::Object(v.into_iter().collect()),
    }
}

/// The value of `serde_json` that a plain value is made into; `None` where a
/// number text is no number.
pub open spec fn json_made(j: JsonView) -> Option<JsonView>
    decreases j, 0int,
{
    match j {
        JsonView::Number(n) => json_number_read(n.text),
        JsonView::List(v) => match made_items(v, v.len() as int) {
            Some(m) => Some(JsonView::List(m)),
            None => None,
        },
        JsonView::Object(e) => match made_entries(e, e.len() as int) {
            Some(m) => Some(JsonView::Object(object_made(m))),
            None => None,
        },
        _ => Some(j),
    }
}

/// What the first `n` items are made into.
pub open spec fn made_items(v: Seq<JsonView>, n: int) -> Option<Seq<JsonView>>
    decreases v, n,
{
    if n <= 0 || n > v.len() {
        Some(seq![])
    } else {
        match (made_items(v, n - 1), json_made(v[n - 1])) {
            (Some(done), Some(m)) => Some(done.push(m)),
            _ => None,
        }
    }
}

/// What the first `n` entries are made into.
pub open spec fn made_entries(e: Seq<(Seq<char>, JsonView)>, n: int) -> Option<
    Seq<(Seq<char>, JsonView)>,
>
    decreases e, n,
{
    if n <= 0 || n > e.len() {
        Some(seq![])
    } else {
        match (made_entries(e, n - 1), json_made(e[n - 1].1)) {
            (Some(done), Some(m)) => Some(done.push((e[n - 1].0, m))),
            _ => None,
        }
    }
}

proof fn lemma_made_items_none(v: Seq<JsonView>, n: int, m: int)
    requires
        0 <= n <= m <= v.len(),
        made_items(v, n) is None,
    ensures
        made_items(v, m) is None,
    decreases m - n,
{
    if n < m {
        lemma_made_items_none(v, n, m - 1);
    }
}

proof fn lemma_made_entries_none(e: Seq<(Seq<char>, JsonView)>, n: int, m: int)
    requires
        0 <= n <= m <= e.len(),
        made_entries(e, n) is None,
    ensures
        made_entries(e, m) is None,
    decreases m - n,
{
    if n < m {
        lemma_made_entries_none(e, n, m - 1);
    }
}

/// Texts are made into themselves.
proof fn lemma_texts_made(e: Seq<(Seq<char>, JsonView)>, n: int)
    requires
        0 <= n <= e.len(),
        forall|i: int| 0 <= i < e.len() ==> (#[trigger] e[i]).1 is Text,
    ensures
        made_entries(e, n) == Some(e.take(n)),
    decreases n,
{
    if n > 0 {
        lemma_texts_made(e, n - 1);
        assert(e[n - 1].1 is Text);
        assert(json_made(e[n - 1].1) == Some(e[n - 1].1));
        assert(e.take(n) =~= e.take(n - 1).push((e[n - 1].0, e[n - 1].1)));
    } else {
        assert(e.take(n) =~= seq![]);
    }
}

/// The `serde_json` value of a plain value. The entries of an object stay as
/// they are where their keys ascend.
fn json_outside(j: &Json) -> (r: Option<serde_json::Value>)
    ensures
        match r {
            Some(v) => json_made(j@) == Some(json_contents(v)),
            None => json_made(j@) is None,
        },
        j@ matches JsonView::Object(e) ==> (made_entries(e, e.len() as int) matches Some(m)
            ==> keys_ascend(m) ==> (r matches Some(v) && json_contents(v) == JsonView::Object(m))),
    decreases j,
{
    proof {
        lemma_json_model(*j);
    }
    match j {
        Json::Null => Some(json_build(JsonBuild::Null)),
        Json::Bool(b) => Some(json_build(JsonBuild::Bool(*b))),
        Json::Number(n) => json_number(n.text.as_str()),
        Json::Text(s) => Some(json_build(JsonBuild::Text(s.clone()))),
        Json::List(v) => {
            let ghost all = json_items(v@);
            let mut out: Vec<serde_json::Value> = Vec::new();
            let mut i: usize = 0;
            assert(all_contents(out@) =~= seq![]);
            while i < v.len()
                invariant
                    i <= v@.len(),
                    *j matches Json::List(w) && w == *v,
                    all == json_items(v@),
                    j@ == JsonView::List(all),
                    made_items(all, i as int) == Some(all_contents(out@)),
                decreases v@.len() - i,
            {
                assert(all[i as int] == v@[i as int]@);
                match json_outside(&v[i]) {
                    Some(x) => {
                        let ghost prev = all_contents(out@);
                        let ghost xv = json_contents(x);
                        out.push(x);
                        assert(all_contents(out@) =~= prev.push(xv));
                    },
                    None => {
                        proof {
                            assert(made_items(all, i + 1) is None);
                            lemma_made_items_none(all, i + 1, all.len() as int);
                        }
                        return None;
                    },
                }
                i = i + 1;
            }
            Some(json_build(JsonBuild::List(out)))
        },
        Json::Object(v) => {
            let ghost all = json_entries(v@);
            let mut out: Vec<(String, serde_json::Value)> = Vec::new();
            let mut i: usize = 0;
            assert(entry_contents(out@) =~= seq![]);
            while i < v.len()
                invariant
                    i <= v@.len(),
                    *j matches Json::Object(w) && w == *v,
                    all == json_entries(v@),
                    j@ == JsonView::Object(all),
                    made_entries(all, i as int) == Some(entry_contents(out@)),
                decreases v@.len() - i,
            {
                assert(all[i as int] == (v@[i as int].0@, v@[i as int].1@));
                match json_outside(&v[i].1) {
                    Some(x) => {
                        let ghost prev = entry_contents(out@);
                        let ghost ev = (v@[i as int].0@, json_contents(x));
                        out.push((v[i].0.clone(), x));
                        assert(entry_contents(out@) =~= prev.push(ev));
                    },
                    None => {
                        proof {
                            assert(made_entries(all, i + 1) is None);
                            lemma_made_entries_none(all, i + 1, all.len() as int);
                        }
                        return None;
                    },
                }
                i = i + 1;
            }
            Some(json_build(JsonBuild::Object(out)))
        },
    }
}

/// The YAML value of a JSON value, as `serde_yaml::to_value` makes it, or the
/// message of its error.
pub uninterp spec fn json_as_yaml(j: JsonView) -> Result<YamlView, Seq<char>>;

/// `serde_yaml::to_value` of a JSON value.
#[verifier::external_body]
fn json_to_yaml(v: &serde_json::Value) -> (r: Result<serde_yaml::Value, String>)
    ensures
        match r {
            Ok(y) => json_as_yaml(json_contents(*v)) == Ok::<YamlView, Seq<char>>(yaml_contents(y)),
            Err(e) => json_as_yaml(json_contents(*v)) == Err::<YamlView, Seq<char>>(e@),
        },
{
    serde_yaml::to_value(v).map_err(|e| e.to_string())
}

/// The YAML value of a plain JSON value, or why there is none.
pub open spec fn yaml_from(j: JsonView) -> Result<YamlView, Seq<char>> {
    match json_made(j) {
        Some(made) => json_as_yaml(made),
        None => Err("not a number"@),
    }
}

/// Turns a JSON value into a YAML value.
pub fn yaml_of_json(j: &Json) -> (r: Result<Yaml, String>)
    ensures
        match r {
            Ok(y) => yaml_from(j@) == Ok::<YamlView, Seq<char>>(y@),
            Err(e) => yaml_from(j@) == Err::<YamlView, Seq<char>>(e@),
        },
{
    match json_outside(j) {
        Some(v) => match json_to_yaml(&v) {
            Ok(y) => Ok(yaml_plain(&y)),
            Err(e) => Err(e),
        },
        None => Err("not a number".to_owned()),
    }
}

/// The text of a JSON value, as `serde_json` writes it without blanks.
pub uninterp spec fn json_written(j: JsonView) -> Seq<char>;

/// `serde_json::Value::to_string`: the compact text of a value.
#[verifier::external_body]
fn json_to_text(v: &serde_json::Value) -> (r: String)
    ensures
        r@ == json_written(json_contents(*v)),
{
    v.to_string()
}

/// The text of a plain JSON value, empty where it cannot be written.
pub open spec fn json_text(j: JsonView) -> Seq<char> {
    match json_made(j) {
        Some(made) => json_written(made),
        None => seq![],
    }
}

/// Writes a value as compact JSON.
pub fn render_json(j: &Json) -> (r: String)
    ensures
        r@ == json_text(j@),
{
    match json_outside(j) {
        Some(v) => json_to_text(&v),
        None => String::new(),
    }
}

/// The text of a JSON value over several lines, as
/// `serde_json::to_string_pretty` writes it.
pub uninterp spec fn json_spread(j: JsonView) -> Seq<char>;

/// Reading that gives a value.
pub open spec fn read_as(j: JsonView) -> Result<JsonView, Seq<char>> {
    Ok(j)
}

/// Whether a value is an object of texts, no key of which begins with a dollar
/// sign.
pub open spec fn is_text_object(j: JsonView) -> bool {
    j matches JsonView::Object(e) && forall|i: int|
        0 <= i < e.len() ==> (#[trigger] e[i]).1 is Text && (e[i].0.len() == 0 || e[i].0[0] != '$')
}

/// `serde_json::Value` under `{:#}`: the text of a value over several lines, as
/// `serde_json::to_string_pretty` writes it. An object of texts is read back by
/// `serde_json::from_str` as it was, where no key begins with a dollar sign: the
/// crate keeps some such keys for itself, and reads an object that begins with
/// one otherwise. Nothing is said of reading back other values: numbers may lose
/// digits, and deep nesting is refused.
#[verifier::external_body]
fn json_to_lines(v: &serde_json::Value) -> (r: String)
    ensures
        r@ == json_spread(json_contents(*v)),
        is_text_object(json_contents(*v)) ==> json_read(r@) == read_as(json_contents(*v)),
{
    format!("{v:#}")
}

/// The text of a plain JSON value over several lines, empty where it cannot be
/// written.
pub open spec fn json_pretty(j: JsonView) -> Seq<char> {
    match json_made(j) {
        Some(made) => json_spread(made),
        None => seq![],
    }
}

/// Writes a value as JSON over several lines. An object of texts with ascending
/// keys, none of which begins with a dollar sign, is read back as it was.
pub fn render_json_pretty(j: &Json) -> (r: String)
    ensures
        r@ == json_pretty(j@),
        is_text_object(j@) && keys_ascend(j@->Object_0) ==> json_read(r@) == read_as(j@),
{
    proof {
        if is_text_object(j@) {
            let e = j@->Object_0;
            lemma_texts_made(e, e.len() as int);
            assert(e.take(e.len() as int) =~= e);
        }
    }
    match json_outside(j) {
        Some(v) => json_to_lines(&v),
        None => String::new(),
    }
}

/// The value that a JSON text stands for, as `serde_json::from_str` reads it, or
/// the message of its error.
pub uninterp spec fn json_read(text: Seq<char>) -> Result<JsonView, Seq<char>>;

/// `serde_json::from_str` into a value.
#[verifier::external_body]
fn json_from_text(text: &str) -> (r: Result<serde_json::Value, String>)
    ensures
        match r {
            Ok(v) => json_read(text@) == Ok::<JsonView, Seq<char>>(json_contents(v)),
            Err(e) => json_read(text@) == Err::<JsonView, Seq<char>>(e@),
        },
{
    serde_json::from_str(text).map_err(|e| e.to_string())
}

/// Reads a JSON text.
pub fn parse_json(text: &str) -> (r: Result<Json, String>)
    ensures
        match r {
            Ok(j) => json_read(text@) == Ok::<JsonView, Seq<char>>(j@),
            Err(e) => json_read(text@) == Err::<JsonView, Seq<char>>(e@),
        },
{
    match json_from_text(text) {
        Ok(v) => Ok(json_plain(&v)),
        Err(e) => Err(e),
    }
}

/// The properties that a frontmatter holds: its entries as JSON, or none where
/// it is no mapping or has a key that JSON cannot have.
pub open spec fn properties_of(y: YamlView) -> Seq<(Seq<char>, JsonView)> {
    match yaml_made(y) {
        Some(made) => match yaml_as_json(made) {
            Some(JsonView::Object(e)) => e,
            _ => seq![],
        },
        None => seq![],
    }
}

/// The properties of a frontmatter.
pub fn json_properties(fm: &Yaml) -> (r: Vec<(String, Json)>)
    ensures
        json_entries(r@) == properties_of(fm@),
{
    let none: Vec<(String, Json)> = Vec::new();
    assert(json_entries(none@) =~= seq![]);
    match yaml_outside(fm) {
        Some(v) => match yaml_to_json(&v) {
            Some(j) => {
                let plain = json_plain(&j);
                proof {
                    lemma_json_model(plain);
                }
                match plain {
                    Json::Object(e) => e,
                    _ => none,
                }
            },
            None => none,
        },
        None => none,
    }
}

// ---------------------------------------------------------------------------
// Equality and order
// ---------------------------------------------------------------------------

/// The rank of a double by its bits: doubles compare as their ranks do. The
/// two zeros have one rank.
pub open spec fn double_rank(bits: u64) -> int {
    if bits < 0x8000_0000_0000_0000 {
        bits as int
    } else {
        0x8000_0000_0000_0000 - bits
    }
}

fn rank_of(bits: u64) -> (r: i64)
    ensures
        r == double_rank(bits),
{
    if bits < 0x8000_0000_0000_0000 {
        bits as i64
    } else {
        -((bits - 0x8000_0000_0000_0000) as i64)
    }
}

/// The position from `i` on of the entry with a key.
pub open spec fn json_entry_from(
    e: Seq<(Seq<char>, JsonView)>,
    key: Seq<char>,
    i: int,
) -> Option<int>
    decreases e.len() - i,
{
    if i < 0 || i >= e.len() {
        None
    } else if e[i].0 == key {
        Some(i)
    } else {
        json_entry_from(e, key, i + 1)
    }
}

/// The value of a key of an object.
pub open spec fn json_get(e: Seq<(Seq<char>, JsonView)>, key: Seq<char>) -> Option<JsonView> {
    match json_entry_from(e, key, 0) {
        Some(i) => Some(e[i].1),
        None => None,
    }
}

/// Whether two values are the same: numbers of one kind with one value, lists
/// item by item, objects entry by entry.
pub open spec fn same_json(a: JsonView, b: JsonView) -> bool
    decreases a,
{
    match (a, b) {
        (JsonView::Null, JsonView::Null) => true,
        (JsonView::Bool(x), JsonView::Bool(y)) => x == y,
        (JsonView::Number(x), JsonView::Number(y)) => x.whole == y.whole && if x.whole {
            x.text == y.text
        } else {
            double_rank(x.bits) == double_rank(y.bits)
        },
        (JsonView::Text(x), JsonView::Text(y)) => x == y,
        (JsonView::List(x), JsonView::List(y)) => x.len() == y.len() && forall|i: int|
            0 <= i < x.len() ==> same_json(#[trigger] x[i], y[i]),
        (JsonView::Object(x), JsonView::Object(y)) => x.len() == y.len() && forall|i: int|
            0 <= i < x.len() ==> (json_get(y, (#[trigger] x[i]).0) matches Some(v) && same_json(
                x[i].1,
                v,
            )),
        _ => false,
    }
}

/// Equality in queries: numbers by value whatever their kind, all else as is.
pub open spec fn json_equal(a: JsonView, b: JsonView) -> bool {
    match (a, b) {
        (JsonView::Number(x), JsonView::Number(y)) => double_rank(x.bits) == double_rank(y.bits),
        _ => same_json(a, b),
    }
}

/// `a` is less than `b`: both numbers or both texts. Nothing else has an order.
pub open spec fn json_less(a: JsonView, b: JsonView) -> bool {
    match (a, b) {
        (JsonView::Number(x), JsonView::Number(y)) => double_rank(x.bits) < double_rank(y.bits),
        (JsonView::Text(x), JsonView::Text(y)) => before(x, y),
        _ => false,
    }
}

/// Whether two values have an order: both numbers or both texts.
pub open spec fn json_ordered(a: JsonView, b: JsonView) -> bool {
    (a is Number && b is Number) || (a is Text && b is Text)
}

pub(crate) fn entry_value<'a>(e: &'a Vec<(String, Json)>, key: &str) -> (r: Option<&'a Json>)
    ensures
        match r {
            Some(j) => json_get(json_entries(e@), key@) == Some(j@) && exists|i: int|
                0 <= i < e@.len() && *j == (#[trigger] e@[i]).1,
            None => json_get(json_entries(e@), key@) is None,
        },
{
    let ghost all = json_entries(e@);
    let mut i: usize = 0;
    while i < e.len()
        invariant
            i <= e@.len(),
            all == json_entries(e@),
            json_entry_from(all, key@, 0) == json_entry_from(all, key@, i as int),
        decreases e@.len() - i,
    {
        assert(all[i as int].0 == e@[i as int].0@);
        if str_eq(e[i].0.as_str(), key) {
            return Some(&e[i].1);
        }
        i = i + 1;
    }
    None
}

impl Json {
    /// Whether two values are the same.
    pub fn same(&self, other: &Json) -> (r: bool)
        ensures
            r == same_json(self@, other@),
        decreases self,
    {
        proof {
            lemma_json_model(*self);
            lemma_json_model(*other);
        }
        match (self, other) {
            (Json::Null, Json::Null) => true,
            (Json::Bool(x), Json::Bool(y)) => *x == *y,
            (Json::Number(x), Json::Number(y)) => x.whole == y.whole && if x.whole {
                str_eq(x.text.as_str(), y.text.as_str())
            } else {
                rank_of(x.bits) == rank_of(y.bits)
            },
            (Json::Text(x), Json::Text(y)) => str_eq(x.as_str(), y.as_str()),
            (Json::List(x), Json::List(y)) => {
                if x.len() != y.len() {
                    return false;
                }
                let ghost xs = json_items(x@);
                let ghost ys = json_items(y@);
                let mut i: usize = 0;
                while i < x.len()
                    invariant
                        i <= x@.len(),
                        x@.len() == y@.len(),
                        self matches Json::List(w) && w == x,
                        xs == json_items(x@),
                        ys == json_items(y@),
                        self@ == JsonView::List(xs),
                        other@ == JsonView::List(ys),
                        forall|k: int| 0 <= k < i ==> same_json(#[trigger] xs[k], ys[k]),
                    decreases x@.len() - i,
                {
                    assert(xs[i as int] == x@[i as int]@ && ys[i as int] == y@[i as int]@);
                    if !x[i].same(&y[i]) {
                        return false;
                    }
                    i = i + 1;
                }
                true
            },
            (Json::Object(x), Json::Object(y)) => {
                if x.len() != y.len() {
                    return false;
                }
                let ghost xs = json_entries(x@);
                let ghost ys = json_entries(y@);
                let mut i: usize = 0;
                while i < x.len()
                    invariant
                        i <= x@.len(),
                        x@.len() == y@.len(),
                        self matches Json::Object(w) && w == x,
                        xs == json_entries(x@),
                        ys == json_entries(y@),
                        self@ == JsonView::Object(xs),
                        other@ == JsonView::Object(ys),
                        forall|k: int|
                            0 <= k < i ==> (json_get(ys, (#[trigger] xs[k]).0) matches Some(v)
                                && same_json(xs[k].1, v)),
                    decreases x@.len() - i,
                {
                    assert(xs[i as int] == (x@[i as int].0@, x@[i as int].1@));
                    match entry_value(y, x[i].0.as_str()) {
                        Some(v) => {
                            if !x[i].1.same(v) {
                                return false;
                            }
                        },
                        None => {
                            return false;
                        },
                    }
                    i = i + 1;
                }
                true
            },
            _ => false,
        }
    }

    /// Equality in queries.
    pub fn equal(&self, other: &Json) -> (r: bool)
        ensures
            r == json_equal(self@, other@),
    {
        match (self, other) {
            (Json::Number(x), Json::Number(y)) => rank_of(x.bits) == rank_of(y.bits),
            _ => self.same(other),
        }
    }

    /// Whether this value is less than another.
    pub fn less(&self, other: &Json) -> (r: bool)
        ensures
            r == json_less(self@, other@),
    {
        match (self, other) {
            (Json::Number(x), Json::Number(y)) => rank_of(x.bits) < rank_of(y.bits),
            (Json::Text(x), Json::Text(y)) => str_before(x.as_str(), y.as_str()),
            _ => false,
        }
    }

    /// Whether this value has an order with another.
    pub fn ordered(&self, other: &Json) -> (r: bool)
        ensures
            r == json_ordered(self@, other@),
    {
        match (self, other) {
            (Json::Number(_), Json::Number(_)) => true,
            (Json::Text(_), Json::Text(_)) => true,
            _ => false,
        }
    }

    /// A deep copy.
    pub fn copy(&self) -> (r: Json)
        ensures
            r@ == self@,
        decreases self,
    {
        match self {
            Json::Null => Json::Null,
            Json::Bool(b) => Json::Bool(*b),
            Json::Number(n) => Json::Number(
                JsonNumber { whole: n.whole, text: n.text.clone(), bits: n.bits },
            ),
            Json::Text(s) => Json::Text(s.clone()),
            Json::List(v) => {
                let mut out: Vec<Json> = Vec::new();
                let mut i: usize = 0;
                while i < v.len()
                    invariant
                        i <= v@.len(),
                        self matches Json::List(w) && w == v,
                        json_items(out@) == json_items(v@).take(i as int),
                    decreases v@.len() - i,
                {
                    let ghost prev = json_items(out@);
                    let c = v[i].copy();
                    out.push(c);
                    assert(json_items(out@) =~= prev.push(v@[i as int]@));
                    assert(json_items(v@).take(i + 1) =~= prev.push(v@[i as int]@));
                    i = i + 1;
                }
                assert(json_items(v@).take(v@.len() as int) =~= json_items(v@));
                let r = Json::List(out);
                proof {
                    lemma_json_model(*self);
                    lemma_json_model(r);
                }
                r
            },
            Json::Object(v) => {
                let r = Json::Object(copy_json_entries(v));
                proof {
                    lemma_json_model(*self);
                    lemma_json_model(r);
                }
                r
            },
        }
    }
}

/// A deep copy of the entries of an object.
pub(crate) fn copy_json_entries(v: &Vec<(String, Json)>) -> (r: Vec<(String, Json)>)
    ensures
        json_entries(r@) == json_entries(v@),
    decreases v,
{
    let mut out: Vec<(String, Json)> = Vec::new();
    let mut i: usize = 0;
    while i < v.len()
        invariant
            i <= v@.len(),
            json_entries(out@) == json_entries(v@).take(i as int),
        decreases v@.len() - i,
    {
        let ghost prev = json_entries(out@);
        let w = v[i].1.copy();
        out.push((v[i].0.clone(), w));
        assert(json_entries(out@) =~= prev.push(json_entries(v@)[i as int]));
        assert(json_entries(v@).take(i + 1) =~= prev.push(json_entries(v@)[i as int]));
        i = i + 1;
    }
    assert(json_entries(v@).take(v@.len() as int) =~= json_entries(v@));
    out
}

proof fn lemma_entry_from(e: Seq<(Seq<char>, JsonView)>, key: Seq<char>, i: int)
    requires
        0 <= i,
    ensures
        match json_entry_from(e, key, i) {
            Some(p) => i <= p < e.len() && e[p].0 == key && forall|k: int|
                i <= k < p ==> (#[trigger] e[k]).0 != key,
            None => forall|k: int| i <= k < e.len() ==> (#[trigger] e[k]).0 != key,
        },
    decreases e.len() - i,
{
    if i < e.len() {
        lemma_entry_from(e, key, i + 1);
    }
}

/// The value of a key is that of its first entry; there is none exactly where no
/// entry has the key.
pub proof fn law_a_key_reads_its_first_entry(e: Seq<(Seq<char>, JsonView)>, key: Seq<char>, p: int)
    ensures
        json_get(e, key) is None <==> forall|k: int| 0 <= k < e.len() ==> (#[trigger] e[k]).0 != key,
        0 <= p < e.len() && e[p].0 == key && (forall|k: int|
            0 <= k < p ==> (#[trigger] e[k]).0 != key) ==> json_get(e, key) == Some(e[p].1),
{
    lemma_entry_from(e, key, 0);
    if 0 <= p < e.len() && e[p].0 == key && (forall|k: int|
        0 <= k < p ==> (#[trigger] e[k]).0 != key) {
        let q = json_entry_from(e, key, 0)->0;
        if q < p {
            assert(e[q].0 != key);
        } else if p < q {
            assert(e[p].0 != key);
        }
    }
}

} // verus!
