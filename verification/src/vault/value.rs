//! YAML and JSON values as plain data.
//!
//! Reading and writing the two formats is the work of `serde_yaml` and
//! `serde_json`. Their values are opaque here, so the logic works on the types
//! of this module, and a few trusted functions carry values across.
use crate::text::{chars_of, holds, opt_text, str_eq};
use serde_yaml::value::TaggedValue;
use vstd::prelude::*;
use vstd::string::*;

verus! {

/// A YAML value. A whole number stands for itself, any other number for its
/// decimal text.
#[derive(Debug)]
pub enum Yaml {
    Null,
    Bool(bool),
    Whole(u64),
    Negative(i64),
    Float(String),
    Text(String),
    List(Vec<Yaml>),
    Table(Vec<(Yaml, Yaml)>),
    Tagged(String, Box<Yaml>),
}

/// The model of a YAML value.
#[verifier::ext_equal]
pub enum YamlView {
    Null,
    Bool(bool),
    Int(int),
    Float(Seq<char>),
    Text(Seq<char>),
    List(Seq<YamlView>),
    Table(Seq<(YamlView, YamlView)>),
    Tagged(Seq<char>, Box<YamlView>),
}

impl Yaml {
    /// The model of the value.
    pub open spec fn model(self) -> YamlView
        decreases self,
    {
        match self {
            Yaml::Null => YamlView::Null,
            Yaml::Bool(b) => YamlView::Bool(b),
            Yaml::Whole(n) => YamlView::Int(n as int),
            Yaml::Negative(n) => YamlView::Int(n as int),
            Yaml::Float(s) => YamlView::Float(s@),
            Yaml::Text(s) => YamlView::Text(s@),
            Yaml::List(v) => YamlView::List(
                Seq::new(
                    v@.len(),
                    |i: int|
                        if 0 <= i < v@.len() {
                            v@[i].model()
                        } else {
                            YamlView::Null
                        },
                ),
            ),
            Yaml::Table(v) => YamlView::Table(
                Seq::new(
                    v@.len(),
                    |i: int|
                        if 0 <= i < v@.len() {
                            (v@[i].0.model(), v@[i].1.model())
                        } else {
                            (YamlView::Null, YamlView::Null)
                        },
                ),
            ),
            Yaml::Tagged(t, v) => YamlView::Tagged(t@, Box::new(v.model())),
        }
    }
}

impl View for Yaml {
    type V = YamlView;

    open spec fn view(&self) -> YamlView {
        self.model()
    }
}

/// A value of `serde_yaml`.
#[verifier::external_type_specification]
#[verifier::external_body]
pub struct ExYamlValue(serde_yaml::Value);

/// A value of `serde_json`.
#[verifier::external_type_specification]
#[verifier::external_body]
pub struct ExJsonValue(serde_json::Value);

/// What a value of `serde_yaml` holds.
pub uninterp spec fn yaml_contents(v: serde_yaml::Value) -> YamlView;

/// The value that a YAML text stands for, as `serde_yaml::from_str` reads it;
/// `None` where it rejects the text.
pub uninterp spec fn yaml_read(text: Seq<char>) -> Option<YamlView>;

/// `serde_yaml::from_str` into a value.
#[verifier::external_body]
fn yaml_from_text(text: &str) -> (r: Option<serde_yaml::Value>)
    ensures
        match r {
            Some(v) => yaml_read(text@) == Some(yaml_contents(v)),
            None => yaml_read(text@) is None,
        },
{
    serde_yaml::from_str(text).ok()
}

/// The outermost level of a value of `serde_yaml`.
enum YamlNode<'a> {
    Null,
    Bool(bool),
    /// As an unsigned and as a signed number, where it is whole and fits, and
    /// as text.
    Number(Option<u64>, Option<i64>, String),
    Text(String),
    List(&'a Vec<serde_yaml::Value>),
    Table(Vec<(&'a serde_yaml::Value, &'a serde_yaml::Value)>),
    Tagged(String, &'a serde_yaml::Value),
}

spec fn all_contents(v: Seq<serde_yaml::Value>) -> Seq<YamlView> {
    v.map_values(|x: serde_yaml::Value| yaml_contents(x))
}

spec fn pair_contents(v: Seq<(&serde_yaml::Value, &serde_yaml::Value)>) -> Seq<
    (YamlView, YamlView),
> {
    v.map_values(
        |e: (&serde_yaml::Value, &serde_yaml::Value)| (yaml_contents(*e.0), yaml_contents(*e.1)),
    )
}

/// The value whose outermost level this is.
spec fn node_contents(n: YamlNode<'_>) -> YamlView {
    match n {
        YamlNode::Null => YamlView::Null,
        YamlNode::Bool(b) => YamlView::Bool(b),
        YamlNode::Number(u, i, text) => match (u, i) {
            (Some(u), _) => YamlView::Int(u as int),
            (None, Some(i)) => YamlView::Int(i as int),
            (None, None) => YamlView::Float(text@),
        },
        YamlNode::Text(s) => YamlView::Text(s@),
        YamlNode::List(v) => YamlView::List(all_contents(v@)),
        YamlNode::Table(v) => YamlView::Table(pair_contents(v@)),
        YamlNode::Tagged(t, v) => YamlView::Tagged(t@, Box::new(yaml_contents(*v))),
    }
}

/// Tells the variants of `serde_yaml::Value` apart. A mapping gives its entries
/// in their order (`Mapping::iter`), a tag its text with the leading mark, and
/// a number what `as_u64`, `as_i64` and its `Display` form make of it.
#[verifier::external_body]
fn yaml_node<'a>(v: &'a serde_yaml::Value) -> (r: YamlNode<'a>)
    ensures
        yaml_contents(*v) == node_contents(r),
{
    match v {
        serde_yaml::Value::Null => YamlNode::Null,
        serde_yaml::Value::Bool(b) => YamlNode::Bool(*b),
        serde_yaml::Value::Number(n) => YamlNode::Number(n.as_u64(), n.as_i64(), n.to_string()),
        serde_yaml::Value::String(s) => YamlNode::Text(s.clone()),
        serde_yaml::Value::Sequence(v) => YamlNode::List(v),
        serde_yaml::Value::Mapping(m) => YamlNode::Table(m.iter().collect()),
        serde_yaml::Value::Tagged(t) => YamlNode::Tagged(t.tag.to_string(), &t.value),
    }
}

/// The plain form of a value of `serde_yaml`.
pub(crate) fn yaml_plain(v: &serde_yaml::Value) -> (r: Yaml)
    ensures
        r@ == yaml_contents(*v),
    decreases yaml_contents(*v),
{
    let ghost whole = yaml_contents(*v);
    match yaml_node(v) {
        YamlNode::Null => Yaml::Null,
        YamlNode::Bool(b) => Yaml::Bool(b),
        YamlNode::Number(u, i, text) => match (u, i) {
            (Some(u), _) => Yaml::Whole(u),
            (None, Some(i)) => Yaml::Negative(i),
            (None, None) => Yaml::Float(text),
        },
        YamlNode::Text(s) => Yaml::Text(s),
        YamlNode::List(items) => {
            let ghost all = all_contents(items@);
            let mut out: Vec<Yaml> = Vec::new();
            let mut i: usize = 0;
            while i < items.len()
                invariant
                    i <= items@.len(),
                    whole == yaml_contents(*v),
                    whole == YamlView::List(all),
                    all == all_contents(items@),
                    items_view(out@) == all.take(i as int),
                decreases items@.len() - i,
            {
                assert(all[i as int] == yaml_contents(items@[i as int]));
                assert(decreases_to!(whole => whole->List_0[i as int]));
                let y = yaml_plain(&items[i]);
                let ghost prev = items_view(out@);
                out.push(y);
                assert(items_view(out@) =~= prev.push(all[i as int]));
                assert(all.take(i + 1) =~= all.take(i as int).push(all[i as int]));
                i = i + 1;
            }
            assert(all.take(i as int) =~= all);
            let r = Yaml::List(out);
            proof {
                lemma_model(r);
            }
            r
        },
        YamlNode::Table(pairs) => {
            let ghost all = pair_contents(pairs@);
            let mut out: Vec<(Yaml, Yaml)> = Vec::new();
            let mut i: usize = 0;
            while i < pairs.len()
                invariant
                    i <= pairs@.len(),
                    whole == yaml_contents(*v),
                    whole == YamlView::Table(all),
                    all == pair_contents(pairs@),
                    entries_view(out@) == all.take(i as int),
                decreases pairs@.len() - i,
            {
                assert(all[i as int] == (
                    yaml_contents(*pairs@[i as int].0),
                    yaml_contents(*pairs@[i as int].1),
                ));
                assert(decreases_to!(whole => whole->Table_0[i as int].0));
                assert(decreases_to!(whole => whole->Table_0[i as int].1));
                let key = yaml_plain(pairs[i].0);
                let value = yaml_plain(pairs[i].1);
                let ghost prev = entries_view(out@);
                out.push((key, value));
                assert(entries_view(out@) =~= prev.push(all[i as int]));
                assert(all.take(i + 1) =~= all.take(i as int).push(all[i as int]));
                i = i + 1;
            }
            assert(all.take(i as int) =~= all);
            let r = Yaml::Table(out);
            proof {
                lemma_model(r);
            }
            r
        },
        YamlNode::Tagged(t, inner) => {
            assert(decreases_to!(whole => *whole->Tagged_1));
            Yaml::Tagged(t, Box::new(yaml_plain(inner)))
        },
    }
}

/// Reads a YAML text.
pub fn parse_yaml(text: &str) -> (r: Option<Yaml>)
    ensures
        match r {
            Some(y) => yaml_read(text@) == Some(y@),
            None => yaml_read(text@) is None,
        },
{
    match yaml_from_text(text) {
        Some(v) => Some(yaml_plain(&v)),
        None => None,
    }
}

/// The number that a text stands for, as `serde_yaml::Number` reads it; `None`
/// where it rejects the text.
pub uninterp spec fn yaml_number_read(text: Seq<char>) -> Option<YamlView>;

/// `str::parse` into a `serde_yaml::Number`, as a value.
#[verifier::external_body]
fn yaml_number(text: &str) -> (r: Option<serde_yaml::Value>)
    ensures
        match r {
            Some(v) => yaml_number_read(text@) == Some(yaml_contents(v)),
            None => yaml_number_read(text@) is None,
        },
{
    text.parse().ok().map(serde_yaml::Value::Number)
}

/// The entries of the `serde_yaml::Mapping` that is collected from entries.
pub uninterp spec fn mapping_made(entries: Seq<(YamlView, YamlView)>) -> Seq<(YamlView, YamlView)>;

/// Whether all keys are texts.
pub open spec fn text_keys(entries: Seq<(YamlView, YamlView)>) -> bool {
    forall|i: int| 0 <= i < entries.len() ==> (#[trigger] entries[i]).0 is Text
}

/// The first `n` entries, each key once: where it came first, with the value
/// that came last.
pub open spec fn keyed(entries: Seq<(YamlView, YamlView)>, n: int) -> Seq<(YamlView, YamlView)>
    decreases n,
{
    if n <= 0 {
        seq![]
    } else {
        let before = keyed(entries, n - 1);
        let (key, value) = entries[n - 1];
        match entry_from(before, key->Text_0, 0) {
            Some(i) => before.update(i, (key, value)),
            None => before.push((key, value)),
        }
    }
}

/// Whether a key is a word of lower-case ASCII letters.
pub open spec fn is_word_key(key: YamlView) -> bool {
    key matches YamlView::Text(k) && k.len() > 0 && forall|i: int|
        0 <= i < k.len() ==> 'a' <= #[trigger] k[i] <= 'z'
}

/// Whether a value is a text, a whole number, a list of texts or a table of such
/// values under words.
pub open spec fn is_field(y: YamlView) -> bool
    decreases y,
{
    match y {
        YamlView::Text(_) => true,
        YamlView::Int(_) => true,
        YamlView::List(v) => forall|i: int| 0 <= i < v.len() ==> #[trigger] v[i] is Text,
        YamlView::Table(e) => forall|i: int|
            #![trigger e[i]]
            0 <= i < e.len() ==> is_word_key(e[i].0) && is_field(e[i].1),
        _ => false,
    }
}

/// Whether a value is a table of fields.
pub open spec fn is_record(y: YamlView) -> bool {
    y is Table && is_field(y)
}

proof fn lemma_keyed_fields(entries: Seq<(YamlView, YamlView)>, n: int)
    requires
        0 <= n <= entries.len(),
        forall|i: int|
            #![trigger entries[i]]
            0 <= i < entries.len() ==> is_word_key(entries[i].0) && is_field(entries[i].1),
    ensures
        forall|i: int|
            #![trigger keyed(entries, n)[i]]
            0 <= i < keyed(entries, n).len() ==> is_word_key(keyed(entries, n)[i].0) && is_field(
                keyed(entries, n)[i].1,
            ),
    decreases n,
{
    if n > 0 {
        lemma_keyed_fields(entries, n - 1);
        let before = keyed(entries, n - 1);
        let last = entries[n - 1];
        assert(is_word_key(last.0) && is_field(last.1));
        lemma_entry_from(before, last.0->Text_0, 0);
        assert forall|i: int| #![trigger keyed(entries, n)[i]]
            0 <= i < keyed(entries, n).len() implies is_word_key(keyed(entries, n)[i].0)
            && is_field(keyed(entries, n)[i].1) by {
            let now = keyed(entries, n)[i];
            assert(now == last || (i < before.len() && now == before[i]));
        }
    }
}

/// The text that `serde_yaml::Tag` shows for a tag: with one leading mark.
pub open spec fn tag_shown(tag: Seq<char>) -> Seq<char> {
    if tag.len() > 1 && tag[0] == '!' {
        tag
    } else {
        seq!['!'] + tag
    }
}

/// The outermost level of a value of `serde_yaml` that is to be made.
enum YamlBuild {
    Null,
    Bool(bool),
    Whole(u64),
    Negative(i64),
    Text(String),
    List(Vec<serde_yaml::Value>),
    Table(Vec<(serde_yaml::Value, serde_yaml::Value)>),
    Tagged(String, serde_yaml::Value),
}

spec fn entry_contents(v: Seq<(serde_yaml::Value, serde_yaml::Value)>) -> Seq<
    (YamlView, YamlView),
> {
    v.map_values(
        |e: (serde_yaml::Value, serde_yaml::Value)| (yaml_contents(e.0), yaml_contents(e.1)),
    )
}

/// The value that is made.
spec fn build_contents(b: YamlBuild) -> YamlView {
    match b {
        YamlBuild::Null => YamlView::Null,
        YamlBuild::Bool(b) => YamlView::Bool(b),
        YamlBuild::Whole(n) => YamlView::Int(n as int),
        YamlBuild::Negative(n) => YamlView::Int(n as int),
        YamlBuild::Text(s) => YamlView::Text(s@),
        YamlBuild::List(v) => YamlView::List(all_contents(v@)),
        YamlBuild::Table(v) => YamlView::Table(mapping_made(entry_contents(v@))),
        YamlBuild::Tagged(t, v) => YamlView::Tagged(tag_shown(t@), Box::new(yaml_contents(v))),
    }
}

/// The variants of `serde_yaml::Value`. A mapping is collected from its entries
/// (`Mapping::from_iter`): a key that comes again keeps its place and takes the
/// later value. `Tag::new` panics on an empty tag, which is left out.
#[verifier::external_body]
fn yaml_build(b: YamlBuild) -> (r: serde_yaml::Value)
    requires
        b matches YamlBuild::Tagged(t, _) ==> t@.len() > 0,
    ensures
        yaml_contents(r) == build_contents(b),
        b matches YamlBuild::Table(v) ==> yaml_contents(r) == YamlView::Table(
            mapping_made(entry_contents(v@)),
        ),
        b matches YamlBuild::Table(v) ==> text_keys(entry_contents(v@)) ==> yaml_contents(r)
            == YamlView::Table(keyed(entry_contents(v@), v@.len() as int)),
{
    match b {
        YamlBuild::Null => serde_yaml::Value::Null,
        YamlBuild::Bool(b) => serde_yaml::Value::Bool(b),
        YamlBuild::Whole(n) => serde_yaml::Value::Number(n.into()),
        YamlBuild::Negative(n) => serde_yaml::Value::Number(n.into()),
        YamlBuild::Text(s) => serde_yaml::Value::String(s),
        YamlBuild::List(v) => serde_yaml::Value::Sequence(v),
        YamlBuild::Table(v) => serde_yaml::Value::Mapping(v.into_iter().collect()),
        YamlBuild::Tagged(t, value) => serde_yaml::Value::Tagged(Box::new(
            TaggedValue { tag: serde_yaml::value::Tag::new(t), value },
        )),
    }
}

/// The value of `serde_yaml` that a plain value is made into; `None` where a
/// float text is no number or a tag is empty.
pub open spec fn yaml_made(y: YamlView) -> Option<YamlView>
    decreases y, 0int,
{
    match y {
        YamlView::Float(s) => yaml_number_read(s),
        YamlView::List(v) => match made_items(v, v.len() as int) {
            Some(m) => Some(YamlView::List(m)),
            None => None,
        },
        YamlView::Table(e) => match made_entries(e, e.len() as int) {
            Some(m) => Some(YamlView::Table(mapping_made(m))),
            None => None,
        },
        YamlView::Tagged(t, inner) => if t.len() == 0 {
            None
        } else {
            match yaml_made(*inner) {
                Some(m) => Some(YamlView::Tagged(tag_shown(t), Box::new(m))),
                None => None,
            }
        },
        _ => Some(y),
    }
}

/// What the first `n` items are made into.
pub open spec fn made_items(v: Seq<YamlView>, n: int) -> Option<Seq<YamlView>>
    decreases v, n,
{
    if n <= 0 || n > v.len() {
        Some(seq![])
    } else {
        match (made_items(v, n - 1), yaml_made(v[n - 1])) {
            (Some(done), Some(m)) => Some(done.push(m)),
            _ => None,
        }
    }
}

/// What the first `n` entries are made into.
pub open spec fn made_entries(e: Seq<(YamlView, YamlView)>, n: int) -> Option<
    Seq<(YamlView, YamlView)>,
>
    decreases e, n,
{
    if n <= 0 || n > e.len() {
        Some(seq![])
    } else {
        match (made_entries(e, n - 1), yaml_made(e[n - 1].0), yaml_made(e[n - 1].1)) {
            (Some(done), Some(k), Some(m)) => Some(done.push((k, m))),
            _ => None,
        }
    }
}

proof fn lemma_made_items_none(v: Seq<YamlView>, n: int, m: int)
    requires
        0 <= n <= m <= v.len(),
        made_items(v, n) is None,
    ensures
        made_items(v, m) is None,
    decreases m - n,
{
    if n < m {
        lemma_made_items_none(v, n, m - 1);
    }
}

proof fn lemma_made_entries_none(e: Seq<(YamlView, YamlView)>, n: int, m: int)
    requires
        0 <= n <= m <= e.len(),
        made_entries(e, n) is None,
    ensures
        made_entries(e, m) is None,
    decreases m - n,
{
    if n < m {
        lemma_made_entries_none(e, n, m - 1);
    }
}

/// The `serde_yaml` value of a plain value.
pub(crate) fn yaml_outside(y: &Yaml) -> (r: Option<serde_yaml::Value>)
    ensures
        match r {
            Some(v) => yaml_made(y@) == Some(yaml_contents(v)),
            None => yaml_made(y@) is None,
        },
        is_field(y@) ==> (r matches Some(v) && is_field(yaml_contents(v))),
    decreases y,
{
    proof {
        lemma_model(*y);
    }
    match y {
        Yaml::Null => Some(yaml_build(YamlBuild::Null)),
        Yaml::Bool(b) => Some(yaml_build(YamlBuild::Bool(*b))),
        Yaml::Whole(n) => Some(yaml_build(YamlBuild::Whole(*n))),
        Yaml::Negative(n) => Some(yaml_build(YamlBuild::Negative(*n))),
        Yaml::Float(s) => yaml_number(s.as_str()),
        Yaml::Text(s) => Some(yaml_build(YamlBuild::Text(s.clone()))),
        Yaml::List(v) => {
            let ghost all = items_view(v@);
            let mut out: Vec<serde_yaml::Value> = Vec::new();
            let mut i: usize = 0;
            assert(all_contents(out@) =~= seq![]);
            while i < v.len()
                invariant
                    i <= v@.len(),
                    *y matches Yaml::List(w) && w == *v,
                    all == items_view(v@),
                    y@ == YamlView::List(all),
                    made_items(all, i as int) == Some(all_contents(out@)),
                    out@.len() == i,
                    is_field(y@) ==> forall|j: int|
                        0 <= j < i ==> #[trigger] all_contents(out@)[j] is Text,
                decreases v@.len() - i,
            {
                assert(all[i as int] == v@[i as int]@);
                match yaml_outside(&v[i]) {
                    Some(x) => {
                        let ghost prev = all_contents(out@);
                        let ghost xv = yaml_contents(x);
                        out.push(x);
                        assert(all_contents(out@) =~= prev.push(xv));
                    },
                    None => {
                        proof {
                            assert(made_items(all, i + 1) is None);
                            lemma_made_items_none(all, i + 1, all.len() as int);
                        }
                        return None;
                    },
                }
                i = i + 1;
            }
            Some(yaml_build(YamlBuild::List(out)))
        },
        Yaml::Table(v) => {
            let ghost all = entries_view(v@);
            let mut out: Vec<(serde_yaml::Value, serde_yaml::Value)> = Vec::new();
            let mut i: usize = 0;
            assert(entry_contents(out@) =~= seq![]);
            while i < v.len()
                invariant
                    i <= v@.len(),
                    *y matches Yaml::Table(w) && w == *v,
                    all == entries_view(v@),
                    y@ == YamlView::Table(all),
                    made_entries(all, i as int) == Some(entry_contents(out@)),
                    out@.len() == i,
                    is_field(y@) ==> forall|j: int|
                        #![trigger entry_contents(out@)[j]]
                        0 <= j < i ==> is_word_key(entry_contents(out@)[j].0) && is_field(
                            entry_contents(out@)[j].1,
                        ),
                decreases v@.len() - i,
            {
                assert(all[i as int] == (v@[i as int].0@, v@[i as int].1@));
                let key = yaml_outside(&v[i].0);
                let value = yaml_outside(&v[i].1);
                match (key, value) {
                    (Some(k), Some(x)) => {
                        let ghost prev = entry_contents(out@);
                        let ghost ev = (yaml_contents(k), yaml_contents(x));
                        out.push((k, x));
                        assert(entry_contents(out@) =~= prev.push(ev));
                    },
                    _ => {
                        proof {
                            assert(made_entries(all, i + 1) is None);
                            lemma_made_entries_none(all, i + 1, all.len() as int);
                        }
                        return None;
                    },
                }
                i = i + 1;
            }
            proof {
                if is_field(y@) {
                    let ec = entry_contents(out@);
                    assert forall|j: int| 0 <= j < ec.len() implies (#[trigger] ec[j]).0 is Text by {
                        assert(is_word_key(ec[j].0));
                    }
                    lemma_keyed_fields(ec, ec.len() as int);
                }
            }
            Some(yaml_build(YamlBuild::Table(out)))
        },
        Yaml::Tagged(t, inner) => {
            if chars_of(t.as_str()).len() == 0 {
                return None;
            }
            match yaml_outside(inner) {
                Some(x) => Some(yaml_build(YamlBuild::Tagged(t.clone(), x))),
                None => None,
            }
        },
    }
}

/// The YAML text of a value, as `serde_yaml::to_string` writes it; `None`
/// where it fails.
pub uninterp spec fn yaml_written(y: YamlView) -> Option<Seq<char>>;

/// `serde_yaml::to_string` of a value. In the text of a table of fields a line
/// begins with a key, with a dash and a space before an item, or with white space
/// (the lines of a text of several lines are indented or escaped, and nothing is
/// folded), or it is the mark of three dots at the end: no line but the first can
/// begin with three dashes.
#[verifier::external_body]
fn yaml_to_text(v: &serde_yaml::Value) -> (r: Option<String>)
    ensures
        opt_text(r) == yaml_written(yaml_contents(*v)),
        is_record(yaml_contents(*v)) ==> (r matches Some(s) ==> !holds(s@, "\n---"@)),
{
    serde_yaml::to_string(v).ok()
}

/// The JSON text of a YAML value, as `serde_json::to_string` writes it, or the
/// message of its error (a mapping with a key that JSON cannot have).
pub uninterp spec fn yaml_json_text(y: YamlView) -> Result<Seq<char>, Seq<char>>;

/// `serde_json::to_string` of a YAML value.
#[verifier::external_body]
fn yaml_to_json_text(v: &serde_yaml::Value) -> (r: Result<String, String>)
    ensures
        match r {
            Ok(s) => yaml_json_text(yaml_contents(*v)) == Ok::<Seq<char>, Seq<char>>(s@),
            Err(e) => yaml_json_text(yaml_contents(*v)) == Err::<Seq<char>, Seq<char>>(e@),
        },
{
    serde_json::to_string(v).map_err(|e| e.to_string())
}

/// The YAML text of a plain value, or nothing where it cannot be written.
pub open spec fn yaml_text(y: YamlView) -> Seq<char> {
    match yaml_made(y) {
        Some(made) => match yaml_written(made) {
            Some(s) => s,
            None => seq![],
        },
        None => seq![],
    }
}

/// The JSON text of a plain YAML value, or the message of the error.
pub open spec fn yaml_as_json_text(y: YamlView) -> Result<Seq<char>, Seq<char>> {
    match yaml_made(y) {
        Some(made) => yaml_json_text(made),
        None => Err("number out of range"@),
    }
}

/// Writes a value as YAML text; empty where it cannot be written.
pub fn render_yaml(y: &Yaml) -> (r: String)
    ensures
        r@ == yaml_text(y@),
        is_record(y@) ==> !holds(r@, "\n---"@),
{
    proof {
        reveal_strlit("\n---");
    }
    match yaml_outside(y) {
        Some(v) => match yaml_to_text(&v) {
            Some(s) => s,
            None => String::new(),
        },
        None => String::new(),
    }
}

/// Writes a value as JSON text.
pub(crate) fn render_yaml_json(y: &Yaml) -> (r: Result<String, String>)
    ensures
        match r {
            Ok(s) => yaml_as_json_text(y@) == Ok::<Seq<char>, Seq<char>>(s@),
            Err(e) => yaml_as_json_text(y@) == Err::<Seq<char>, Seq<char>>(e@),
        },
{
    match yaml_outside(y) {
        Some(v) => yaml_to_json_text(&v),
        None => Err("number out of range".to_owned()),
    }
}

// ---------------------------------------------------------------------------
// Reading a YAML value
// ---------------------------------------------------------------------------

/// A value without its tags.
pub open spec fn untag(y: YamlView) -> YamlView
    decreases y,
{
    match y {
        YamlView::Tagged(_, inner) => untag(*inner),
        _ => y,
    }
}

/// The position from `i` on of the entry with the text key `key`.
pub open spec fn entry_from(e: Seq<(YamlView, YamlView)>, key: Seq<char>, i: int) -> Option<int>
    decreases e.len() - i,
{
    if i < 0 || i >= e.len() {
        None
    } else if e[i].0 == YamlView::Text(key) {
        Some(i)
    } else {
        entry_from(e, key, i + 1)
    }
}

/// The value of a text key, where `y` is a mapping that has it.
pub open spec fn yaml_get(y: YamlView, key: Seq<char>) -> Option<YamlView> {
    match untag(y) {
        YamlView::Table(e) => match entry_from(e, key, 0) {
            Some(i) => Some(e[i].1),
            None => None,
        },
        _ => None,
    }
}

/// The text that a value is.
pub open spec fn yaml_str(y: YamlView) -> Option<Seq<char>> {
    match untag(y) {
        YamlView::Text(s) => Some(s),
        _ => None,
    }
}

pub proof fn lemma_entry_from(e: Seq<(YamlView, YamlView)>, key: Seq<char>, i: int)
    requires
        0 <= i,
    ensures
        match entry_from(e, key, i) {
            Some(k) => i <= k < e.len() && e[k].0 == YamlView::Text(key) && forall|j: int|
                i <= j < k ==> (#[trigger] e[j]).0 != YamlView::Text(key),
            None => forall|j: int| i <= j < e.len() ==> (#[trigger] e[j]).0 != YamlView::Text(key),
        },
    decreases e.len() - i,
{
    if i < e.len() && e[i].0 != YamlView::Text(key) {
        lemma_entry_from(e, key, i + 1);
    }
}

/// The model of the entries of a mapping.
pub open spec fn entries_view(v: Seq<(Yaml, Yaml)>) -> Seq<(YamlView, YamlView)> {
    v.map_values(|e: (Yaml, Yaml)| (e.0@, e.1@))
}

/// The model of the items of a sequence.
pub open spec fn items_view(v: Seq<Yaml>) -> Seq<YamlView> {
    v.map_values(|y: Yaml| y@)
}

pub(crate) proof fn lemma_model(y: Yaml)
    ensures
        y matches Yaml::List(v) ==> y@ == YamlView::List(items_view(v@)),
        y matches Yaml::Table(v) ==> y@ == YamlView::Table(entries_view(v@)),
{
    match y {
        Yaml::List(v) => {
            assert(y@->List_0 =~= items_view(v@));
        },
        Yaml::Table(v) => {
            assert(y@->Table_0 =~= entries_view(v@));
        },
        _ => {},
    }
}

impl Yaml {
    /// The value without its tags.
    pub fn untagged(&self) -> (r: &Yaml)
        ensures
            r@ == untag(self@),
            !(r is Tagged),
        decreases self,
    {
        match self {
            Yaml::Tagged(_, inner) => inner.untagged(),
            _ => self,
        }
    }

    /// The value of a text key, where this is a mapping that has it.
    pub fn get(&self, key: &str) -> (r: Option<&Yaml>)
        ensures
            match r {
                Some(y) => yaml_get(self@, key@) == Some(y@),
                None => yaml_get(self@, key@) is None,
            },
    {
        let inner = self.untagged();
        proof {
            lemma_model(*inner);
        }
        match inner {
            Yaml::Table(v) => {
                let ghost e = entries_view(v@);
                let mut i: usize = 0;
                while i < v.len()
                    invariant
                        i <= v@.len(),
                        e == entries_view(v@),
                        untag(self@) == YamlView::Table(e),
                        entry_from(e, key@, 0) == entry_from(e, key@, i as int),
                    decreases v@.len() - i,
                {
                    let hit: bool = match &v[i].0 {
                        Yaml::Text(s) => str_eq(s.as_str(), key),
                        _ => false,
                    };
                    assert(e[i as int].0 == v@[i as int].0@);
                    if hit {
                        assert(e[i as int].0 == YamlView::Text(key@));
                        return Some(&v[i].1);
                    }
                    assert(e[i as int].0 != YamlView::Text(key@));
                    i = i + 1;
                }
                None
            },
            _ => None,
        }
    }

    /// The text that the value is.
    pub fn as_str(&self) -> (r: Option<&str>)
        ensures
            match r {
                Some(s) => yaml_str(self@) == Some(s@),
                None => yaml_str(self@) is None,
            },
    {
        match self.untagged() {
            Yaml::Text(s) => Some(s.as_str()),
            _ => None,
        }
    }

    /// The whole number that the value is.
    pub fn as_u64(&self) -> (r: Option<u64>)
        ensures
            match r {
                Some(n) => untag(self@) == YamlView::Int(n as int),
                None => match untag(self@) {
                    YamlView::Int(n) => n < 0,
                    _ => true,
                },
            },
    {
        match self.untagged() {
            Yaml::Whole(n) => Some(*n),
            Yaml::Negative(n) => if *n >= 0 {
                Some(*n as u64)
            } else {
                None
            },
            _ => None,
        }
    }

    /// A deep copy.
    pub fn copy(&self) -> (r: Yaml)
        ensures
            r@ == self@,
        decreases self,
    {
        match self {
            Yaml::Null => Yaml::Null,
            Yaml::Bool(b) => Yaml::Bool(*b),
            Yaml::Whole(n) => Yaml::Whole(*n),
            Yaml::Negative(n) => Yaml::Negative(*n),
            Yaml::Float(s) => Yaml::Float(s.clone()),
            Yaml::Text(s) => Yaml::Text(s.clone()),
            Yaml::List(v) => {
                let mut out: Vec<Yaml> = Vec::new();
                let mut i: usize = 0;
                while i < v.len()
                    invariant
                        i <= v@.len(),
                        self matches Yaml::List(w) && w == v,
                        items_view(out@) == items_view(v@).take(i as int),
                    decreases v@.len() - i,
                {
                    let ghost prev = items_view(out@);
                    let c = v[i].copy();
                    out.push(c);
                    assert(items_view(out@) =~= prev.push(v@[i as int]@));
                    assert(items_view(v@).take(i + 1) =~= prev.push(v@[i as int]@));
                    i = i + 1;
                }
                assert(items_view(v@).take(v@.len() as int) =~= items_view(v@));
                let r = Yaml::List(out);
                proof {
                    lemma_model(*self);
                    lemma_model(r);
                }
                r
            },
            Yaml::Table(v) => {
                let out = copy_entries(v);
                let r = Yaml::Table(out);
                proof {
                    lemma_model(*self);
                    lemma_model(r);
                }
                r
            },
            Yaml::Tagged(t, inner) => Yaml::Tagged(t.clone(), Box::new(inner.copy())),
        }
    }
}

/// A deep copy of the entries of a mapping.
pub(crate) fn copy_entries(v: &Vec<(Yaml, Yaml)>) -> (r: Vec<(Yaml, Yaml)>)
    ensures
        entries_view(r@) == entries_view(v@),
    decreases v,
{
    let mut out: Vec<(Yaml, Yaml)> = Vec::new();
    let mut i: usize = 0;
    while i < v.len()
        invariant
            i <= v@.len(),
            entries_view(out@) == entries_view(v@).take(i as int),
        decreases v@.len() - i,
    {
        let ghost prev = entries_view(out@);
        let k = v[i].0.copy();
        let w = v[i].1.copy();
        out.push((k, w));
        assert(entries_view(out@) =~= prev.push(entries_view(v@)[i as int]));
        assert(entries_view(v@).take(i + 1) =~= prev.push(entries_view(v@)[i as int]));
        i = i + 1;
    }
    assert(entries_view(v@).take(v@.len() as int) =~= entries_view(v@));
    out
}

/// The entries with `key` set to `value`: in place where the key is there, at
/// the end otherwise.
pub open spec fn entries_with(
    e: Seq<(YamlView, YamlView)>,
    key: Seq<char>,
    value: YamlView,
) -> Seq<(YamlView, YamlView)> {
    match entry_from(e, key, 0) {
        Some(i) => e.update(i, (YamlView::Text(key), value)),
        None => e.push((YamlView::Text(key), value)),
    }
}

/// Sets a text key of a mapping.
pub(crate) fn set_entry(v: Vec<(Yaml, Yaml)>, key: &str, value: Yaml) -> (r: Vec<(Yaml, Yaml)>)
    ensures
        entries_view(r@) == entries_with(entries_view(v@), key@, value@),
{
    let ghost e = entries_view(v@);
    let ghost val = value@;
    let mut out = v;
    let mut i: usize = 0;
    while i < out.len()
        invariant
            i <= out@.len(),
            out == v,
            val == value@,
            e == entries_view(v@),
            entry_from(e, key@, 0) == entry_from(e, key@, i as int),
        decreases out@.len() - i,
    {
        let hit: bool = match &out[i].0 {
            Yaml::Text(s) => str_eq(s.as_str(), key),
            _ => false,
        };
        assert(e[i as int].0 == out@[i as int].0@);
        if hit {
            assert(e[i as int].0 == YamlView::Text(key@));
            out.set(i, (Yaml::Text(key.to_owned()), value));
            assert(entries_view(out@) =~= e.update(i as int, (YamlView::Text(key@), val)));
            return out;
        }
        assert(e[i as int].0 != YamlView::Text(key@));
        i = i + 1;
    }
    out.push((Yaml::Text(key.to_owned()), value));
    assert(entries_view(out@) =~= e.push((YamlView::Text(key@), val)));
    out
}

} // verus!
