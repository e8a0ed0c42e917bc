//! `tacitus-plugin.toml`: the identity and the permissions that a plugin
//! declares.
//!
//! All of it is checked before any module is compiled. Unknown tools, tools
//! that write under a read-only scope, and an entry that leaves the plugin's
//! directory are refused when the plugin is loaded, not when it makes a call.
use crate::error::{error, ErrorView, TacitusError};
use crate::paths::{join_path, path_join};
use crate::text::{
    chars_of, copy_opt, copy_strings, debug_text, has_string, join, join_strings, lemma_next_char,
    lemma_split_joined, opt_text, quoted, split_char, split_on, str_eq, texts,
};
use crate::tools::table::{
    descriptors_view, find_tool, names_of, tool_names, tool_position, DescriptorView,
    ToolDescriptor,
};
use crate::vault::json::{
    json_contents, json_entries, json_items, json_plain, lemma_json_model, Json, JsonView,
};
use crate::vault::write::PermissionScope;
use vstd::prelude::*;
use vstd::string::*;

verus! {

pub const MANIFEST_FILE: &'static str = "tacitus-plugin.toml";

/// What a plugin declares.
#[derive(Debug)]
pub struct PluginManifest {
    /// Lowercase letters, digits and dashes, and no dash first. Equal to the
    /// name of the plugin's directory.
    pub name: String,
    pub version: String,
    pub description: Option<String>,
    /// Where the module is, relative to the manifest.
    pub entry: String,
    /// The events that the plugin wants to run on.
    pub hooks: Vec<String>,
    pub permissions: Permissions,
}

/// What a plugin may do.
#[derive(Debug)]
pub struct Permissions {
    pub scope: PermissionScope,
    /// The tools that the plugin may call, and no others.
    pub tools: Vec<String>,
}

/// The model of a manifest.
#[verifier::ext_equal]
pub struct ManifestView {
    pub name: Seq<char>,
    pub version: Seq<char>,
    pub description: Option<Seq<char>>,
    pub entry: Seq<char>,
    pub hooks: Seq<Seq<char>>,
    pub scope: PermissionScope,
    pub tools: Seq<Seq<char>>,
}

impl View for PluginManifest {
    type V = ManifestView;

    open spec fn view(&self) -> ManifestView {
        ManifestView {
            name: self.name@,
            version: self.version@,
            description: opt_text(self.description),
            entry: self.entry@,
            hooks: texts(self.hooks@),
            scope: self.permissions.scope,
            tools: texts(self.permissions.tools@),
        }
    }
}

// ---------------------------------------------------------------------------
// Reading
// ---------------------------------------------------------------------------

/// The value that a TOML text stands for, as `toml::from_str` reads it into a
/// value of `serde_json`, or the message of its error.
pub uninterp spec fn toml_read(text: Seq<char>) -> Result<JsonView, Seq<char>>;

/// `toml::from_str` into a value of `serde_json`. Tables become objects and
/// arrays become lists.
#[verifier::external_body]
fn toml_from_text(text: &str) -> (r: Result<serde_json::Value, String>)
    ensures
        match r {
            Ok(v) => toml_read(text@) == Ok::<JsonView, Seq<char>>(json_contents(v)),
            Err(e) => toml_read(text@) == Err::<JsonView, Seq<char>>(e@),
        },
{
    toml::from_str(text).map_err(|e| e.to_string())
}

/// Why a value is no manifest.
pub open spec fn missing_field(name: Seq<char>) -> Seq<char> {
    "missing field `"@ + name + "`"@
}

pub open spec fn wrong_type(name: Seq<char>, wanted: Seq<char>) -> Seq<char> {
    "invalid type for `"@ + name + "`, expected "@ + wanted
}

pub open spec fn unknown_field(name: Seq<char>, known: Seq<char>) -> Seq<char> {
    "unknown field `"@ + name + "`, expected one of "@ + known
}

fn lacks(name: &str) -> (r: String)
    ensures
        r@ == missing_field(name@),
{
    let mut s = "missing field `".to_owned();
    s.append(name);
    s.append("`");
    s
}

fn expected(name: &str, wanted: &str) -> (r: String)
    ensures
        r@ == wrong_type(name@, wanted@),
{
    let mut s = "invalid type for `".to_owned();
    s.append(name);
    s.append("`, expected ");
    s.append(wanted);
    s
}

fn strange(name: &str, known: &str) -> (r: String)
    ensures
        r@ == unknown_field(name@, known@),
{
    let mut s = "unknown field `".to_owned();
    s.append(name);
    s.append("`, expected one of ");
    s.append(known);
    s
}

/// The position from `i` on of the entry with a key.
pub open spec fn key_from(e: Seq<(Seq<char>, JsonView)>, key: Seq<char>, i: int) -> Option<int>
    decreases e.len() - i,
{
    if i < 0 || i >= e.len() {
        None
    } else if e[i].0 == key {
        Some(i)
    } else {
        key_from(e, key, i + 1)
    }
}

/// The value of a key.
pub open spec fn value_of(e: Seq<(Seq<char>, JsonView)>, key: Seq<char>) -> Option<JsonView> {
    match key_from(e, key, 0) {
        Some(i) => Some(e[i].1),
        None => None,
    }
}

fn lookup<'a>(e: &'a Vec<(String, Json)>, key: &str) -> (r: Option<&'a Json>)
    ensures
        match r {
            Some(j) => value_of(json_entries(e@), key@) == Some(j@),
            None => value_of(json_entries(e@), key@) is None,
        },
{
    let ghost m = json_entries(e@);
    let mut i: usize = 0;
    while i < e.len()
        invariant
            i <= e@.len(),
            m == json_entries(e@),
            key_from(m, key@, 0) == key_from(m, key@, i as int),
        decreases e@.len() - i,
    {
        assert(m[i as int] == (e@[i as int].0@, e@[i as int].1@));
        if str_eq(e[i].0.as_str(), key) {
            return Some(&e[i].1);
        }
        i = i + 1;
    }
    None
}

/// The first key from `i` on that is none of the known ones.
pub open spec fn stranger_from(
    e: Seq<(Seq<char>, JsonView)>,
    known: Seq<Seq<char>>,
    i: int,
) -> Option<Seq<char>>
    decreases e.len() - i,
{
    if i < 0 || i >= e.len() {
        None
    } else if !known.contains(e[i].0) {
        Some(e[i].0)
    } else {
        stranger_from(e, known, i + 1)
    }
}

/// A text that must be there.
pub open spec fn required_text(e: Seq<(Seq<char>, JsonView)>, key: Seq<char>) -> Result<
    Seq<char>,
    Seq<char>,
> {
    match value_of(e, key) {
        None => Err(missing_field(key)),
        Some(JsonView::Text(s)) => Ok(s),
        Some(_) => Err(wrong_type(key, "a string"@)),
    }
}

fn take_text(e: &Vec<(String, Json)>, key: &str) -> (r: Result<String, String>)
    ensures
        match r {
            Ok(s) => required_text(json_entries(e@), key@) == Ok::<Seq<char>, Seq<char>>(s@),
            Err(m) => required_text(json_entries(e@), key@) == Err::<Seq<char>, Seq<char>>(m@),
        },
{
    match lookup(e, key) {
        None => Err(lacks(key)),
        Some(j) => match j {
            Json::Text(s) => Ok(s.clone()),
            _ => Err(expected(key, "a string")),
        },
    }
}

/// The texts of a list.
pub open spec fn list_texts(v: Seq<JsonView>, n: int) -> Option<Seq<Seq<char>>>
    decreases n,
{
    if n <= 0 {
        Some(seq![])
    } else {
        match (list_texts(v, n - 1), v[n - 1]) {
            (Some(done), JsonView::Text(s)) => Some(done.push(s)),
            _ => None,
        }
    }
}

/// A value as a list of texts.
pub open spec fn value_texts(j: JsonView) -> Option<Seq<Seq<char>>> {
    match j {
        JsonView::List(v) => list_texts(v, v.len() as int),
        _ => None,
    }
}

proof fn lemma_list_texts_none(v: Seq<JsonView>, n: int, m: int)
    requires
        0 <= n <= m,
        list_texts(v, n) is None,
    ensures
        list_texts(v, m) is None,
    decreases m - n,
{
    if n < m {
        lemma_list_texts_none(v, n, m - 1);
    }
}

fn texts_of(j: &Json) -> (r: Option<Vec<String>>)
    ensures
        match r {
            Some(v) => value_texts(j@) == Some(texts(v@)),
            None => value_texts(j@) is None,
        },
{
    proof {
        lemma_json_model(*j);
    }
    match j {
        Json::List(items) => {
            let ghost v = json_items(items@);
            let mut out: Vec<String> = Vec::new();
            let mut i: usize = 0;
            assert(texts(out@) =~= seq![]);
            while i < items.len()
                invariant
                    i <= items@.len(),
                    v == json_items(items@),
                    j@ == JsonView::List(v),
                    list_texts(v, i as int) == Some(texts(out@)),
                decreases items@.len() - i,
            {
                assert(v[i as int] == items@[i as int]@);
                match &items[i] {
                    Json::Text(s) => {
                        let ghost prev = texts(out@);
                        out.push(s.clone());
                        assert(texts(out@) =~= prev.push(s@));
                    },
                    _ => {
                        proof {
                            lemma_list_texts_none(v, i + 1, v.len() as int);
                        }
                        return None;
                    },
                }
                i = i + 1;
            }
            Some(out)
        },
        _ => None,
    }
}

/// Whether a value holds nothing.
pub open spec fn is_blank(j: JsonView) -> bool {
    match j {
        JsonView::List(v) => v.len() == 0,
        JsonView::Object(e) => e.len() == 0,
        _ => false,
    }
}

/// The scope that a name stands for.
pub open spec fn scope_named(name: Seq<char>) -> Option<PermissionScope> {
    if name == "read-only"@ {
        Some(PermissionScope::ReadOnly)
    } else if name == "read-write"@ {
        Some(PermissionScope::ReadWrite)
    } else {
        None
    }
}

/// The scope that a value stands for: its name, or a table with nothing under
/// its name.
pub open spec fn scope_of(j: JsonView) -> Option<PermissionScope> {
    match j {
        JsonView::Text(s) => scope_named(s),
        JsonView::Object(e) => if e.len() == 1 && is_blank(e[0].1) {
            scope_named(e[0].0)
        } else {
            None
        },
        _ => None,
    }
}

fn parse_scope(name: &str) -> (r: Option<PermissionScope>)
    ensures
        r == scope_named(name@),
{
    if str_eq(name, "read-only") {
        Some(PermissionScope::ReadOnly)
    } else if str_eq(name, "read-write") {
        Some(PermissionScope::ReadWrite)
    } else {
        None
    }
}

fn blank(j: &Json) -> (r: bool)
    ensures
        r == is_blank(j@),
{
    proof {
        lemma_json_model(*j);
    }
    match j {
        Json::List(v) => v.len() == 0,
        Json::Object(e) => e.len() == 0,
        _ => false,
    }
}

fn take_scope(j: &Json) -> (r: Option<PermissionScope>)
    ensures
        r == scope_of(j@),
{
    proof {
        lemma_json_model(*j);
    }
    match j {
        Json::Text(s) => parse_scope(s.as_str()),
        Json::Object(e) => {
            assert(j@ == JsonView::Object(json_entries(e@)));
            if e.len() == 1 {
                assert(json_entries(e@)[0] == (e@[0].0@, e@[0].1@));
                if blank(&e[0].1) {
                    return parse_scope(e[0].0.as_str());
                }
            }
            None
        },
        _ => None,
    }
}

/// What a plugin may do, or why that cannot be read.
pub open spec fn granted(scope: JsonView, tools: JsonView) -> Result<
    (PermissionScope, Seq<Seq<char>>),
    Seq<char>,
> {
    match scope_of(scope) {
        None => Err(wrong_type("scope"@, "`read-only` or `read-write`"@)),
        Some(s) => match value_texts(tools) {
            None => Err(wrong_type("tools"@, "a list of strings"@)),
            Some(t) => Ok((s, t)),
        },
    }
}

/// The fields of the permissions.
pub open spec fn permission_fields() -> Seq<Seq<char>> {
    seq!["scope"@, "tools"@]
}

/// The permissions that a value stands for: a table by its keys, a list by
/// position.
pub open spec fn permissions_of(j: JsonView) -> Result<
    (PermissionScope, Seq<Seq<char>>),
    Seq<char>,
> {
    match j {
        JsonView::Object(e) => match stranger_from(e, permission_fields(), 0) {
            Some(k) => Err(unknown_field(k, "`scope`, `tools`"@)),
            None => match (value_of(e, "scope"@), value_of(e, "tools"@)) {
                (None, _) => Err(missing_field("scope"@)),
                (Some(_), None) => Err(missing_field("tools"@)),
                (Some(s), Some(t)) => granted(s, t),
            },
        },
        JsonView::List(v) => if v.len() >= 2 {
            granted(v[0], v[1])
        } else {
            Err(wrong_type("permissions"@, "a table"@))
        },
        _ => Err(wrong_type("permissions"@, "a table"@)),
    }
}

fn grant(scope: &Json, tools: &Json) -> (r: Result<Permissions, String>)
    ensures
        match r {
            Ok(p) => granted(scope@, tools@) == Ok::<(PermissionScope, Seq<Seq<char>>), Seq<char>>(
                (p.scope, texts(p.tools@)),
            ),
            Err(m) => granted(scope@, tools@) == Err::<
                (PermissionScope, Seq<Seq<char>>),
                Seq<char>,
            >(m@),
        },
{
    match take_scope(scope) {
        None => Err(expected("scope", "`read-only` or `read-write`")),
        Some(s) => match texts_of(tools) {
            None => Err(expected("tools", "a list of strings")),
            Some(t) => Ok(Permissions { scope: s, tools: t }),
        },
    }
}

fn find_stranger(e: &Vec<(String, Json)>, known: &Vec<String>) -> (r: Option<String>)
    ensures
        opt_text(r) == stranger_from(json_entries(e@), texts(known@), 0),
{
    let ghost m = json_entries(e@);
    let ghost k = texts(known@);
    let mut i: usize = 0;
    while i < e.len()
        invariant
            i <= e@.len(),
            m == json_entries(e@),
            k == texts(known@),
            stranger_from(m, k, 0) == stranger_from(m, k, i as int),
        decreases e@.len() - i,
    {
        assert(m[i as int] == (e@[i as int].0@, e@[i as int].1@));
        if !has_string(known, e[i].0.as_str()) {
            return Some(e[i].0.clone());
        }
        i = i + 1;
    }
    None
}

fn take_permissions(j: &Json) -> (r: Result<Permissions, String>)
    ensures
        match r {
            Ok(p) => permissions_of(j@) == Ok::<(PermissionScope, Seq<Seq<char>>), Seq<char>>(
                (p.scope, texts(p.tools@)),
            ),
            Err(m) => permissions_of(j@) == Err::<(PermissionScope, Seq<Seq<char>>), Seq<char>>(
                m@,
            ),
        },
{
    proof {
        lemma_json_model(*j);
    }
    match j {
        Json::Object(e) => {
            assert(j@ == JsonView::Object(json_entries(e@)));
            let mut known: Vec<String> = Vec::new();
            known.push("scope".to_owned());
            known.push("tools".to_owned());
            assert(texts(known@) =~= permission_fields());
            match find_stranger(e, &known) {
                Some(k) => {
                    return Err(strange(k.as_str(), "`scope`, `tools`"));
                },
                None => {},
            }
            match (lookup(e, "scope"), lookup(e, "tools")) {
                (None, _) => Err(lacks("scope")),
                (Some(_), None) => Err(lacks("tools")),
                (Some(s), Some(t)) => grant(s, t),
            }
        },
        Json::List(v) => {
            assert(j@ == JsonView::List(json_items(v@)));
            if v.len() >= 2 {
                assert(json_items(v@)[0] == v@[0]@ && json_items(v@)[1] == v@[1]@);
                grant(&v[0], &v[1])
            } else {
                Err(expected("permissions", "a table"))
            }
        },
        _ => Err(expected("permissions", "a table")),
    }
}

/// The fields of a manifest.
pub open spec fn manifest_fields() -> Seq<Seq<char>> {
    seq!["name"@, "version"@, "description"@, "entry"@, "hooks"@, "permissions"@]
}

/// The manifest that the entries of a table stand for, or why they are none.
pub open spec fn manifest_of(e: Seq<(Seq<char>, JsonView)>) -> Result<ManifestView, Seq<char>> {
    match stranger_from(e, manifest_fields(), 0) {
        Some(k) => Err(
            unknown_field(
                k,
                "`name`, `version`, `description`, `entry`, `hooks`, `permissions`"@,
            ),
        ),
        None => match required_text(e, "name"@) {
            Err(m) => Err(m),
            Ok(name) => match required_text(e, "version"@) {
                Err(m) => Err(m),
                Ok(version) => match required_text(e, "entry"@) {
                    Err(m) => Err(m),
                    Ok(entry) => manifest_rest(e, name, version, entry),
                },
            },
        },
    }
}

/// The manifest with the given texts.
pub open spec fn manifest_rest(
    e: Seq<(Seq<char>, JsonView)>,
    name: Seq<char>,
    version: Seq<char>,
    entry: Seq<char>,
) -> Result<ManifestView, Seq<char>> {
    match optional_text(e, "description"@) {
        Err(m) => Err(m),
        Ok(description) => match optional_texts(e, "hooks"@) {
            Err(m) => Err(m),
            Ok(hooks) => match value_of(e, "permissions"@) {
                None => Err(missing_field("permissions"@)),
                Some(p) => match permissions_of(p) {
                    Err(m) => Err(m),
                    Ok(g) => Ok(
                        ManifestView {
                            name,
                            version,
                            description,
                            entry,
                            hooks,
                            scope: g.0,
                            tools: g.1,
                        },
                    ),
                },
            },
        },
    }
}

/// A text that may be left out.
pub open spec fn optional_text(e: Seq<(Seq<char>, JsonView)>, key: Seq<char>) -> Result<
    Option<Seq<char>>,
    Seq<char>,
> {
    match value_of(e, key) {
        None => Ok(None),
        Some(JsonView::Text(s)) => Ok(Some(s)),
        Some(_) => Err(wrong_type(key, "a string"@)),
    }
}

/// A list of texts that may be left out.
pub open spec fn optional_texts(e: Seq<(Seq<char>, JsonView)>, key: Seq<char>) -> Result<
    Seq<Seq<char>>,
    Seq<char>,
> {
    match value_of(e, key) {
        None => Ok(seq![]),
        Some(j) => match value_texts(j) {
            Some(v) => Ok(v),
            None => Err(wrong_type(key, "a list of strings"@)),
        },
    }
}

fn take_optional(e: &Vec<(String, Json)>, key: &str) -> (r: Result<Option<String>, String>)
    ensures
        match r {
            Ok(s) => optional_text(json_entries(e@), key@) == Ok::<Option<Seq<char>>, Seq<char>>(
                opt_text(s),
            ),
            Err(m) => optional_text(json_entries(e@), key@) == Err::<Option<Seq<char>>, Seq<char>>(
                m@,
            ),
        },
{
    match lookup(e, key) {
        None => Ok(None),
        Some(j) => match j {
            Json::Text(s) => Ok(Some(s.clone())),
            _ => Err(expected(key, "a string")),
        },
    }
}

fn take_list(e: &Vec<(String, Json)>, key: &str) -> (r: Result<Vec<String>, String>)
    ensures
        match r {
            Ok(v) => optional_texts(json_entries(e@), key@) == Ok::<Seq<Seq<char>>, Seq<char>>(
                texts(v@),
            ),
            Err(m) => optional_texts(json_entries(e@), key@) == Err::<Seq<Seq<char>>, Seq<char>>(
                m@,
            ),
        },
{
    match lookup(e, key) {
        None => {
            let v: Vec<String> = Vec::new();
            assert(texts(v@) =~= seq![]);
            Ok(v)
        },
        Some(j) => match texts_of(j) {
            Some(v) => Ok(v),
            None => Err(expected(key, "a list of strings")),
        },
    }
}

fn take_manifest(e: &Vec<(String, Json)>) -> (r: Result<PluginManifest, String>)
    ensures
        match r {
            Ok(m) => manifest_of(json_entries(e@)) == Ok::<ManifestView, Seq<char>>(m@),
            Err(x) => manifest_of(json_entries(e@)) == Err::<ManifestView, Seq<char>>(x@),
        },
{
    let mut known: Vec<String> = Vec::new();
    known.push("name".to_owned());
    known.push("version".to_owned());
    known.push("description".to_owned());
    known.push("entry".to_owned());
    known.push("hooks".to_owned());
    known.push("permissions".to_owned());
    assert(texts(known@) =~= manifest_fields());
    match find_stranger(e, &known) {
        Some(k) => {
            return Err(
                strange(
                    k.as_str(),
                    "`name`, `version`, `description`, `entry`, `hooks`, `permissions`",
                ),
            );
        },
        None => {},
    }
    let name = match take_text(e, "name") {
        Ok(s) => s,
        Err(m) => {
            return Err(m);
        },
    };
    let version = match take_text(e, "version") {
        Ok(s) => s,
        Err(m) => {
            return Err(m);
        },
    };
    let entry = match take_text(e, "entry") {
        Ok(s) => s,
        Err(m) => {
            return Err(m);
        },
    };
    let description = match take_optional(e, "description") {
        Ok(d) => d,
        Err(m) => {
            return Err(m);
        },
    };
    let hooks = match take_list(e, "hooks") {
        Ok(v) => v,
        Err(m) => {
            return Err(m);
        },
    };
    match lookup(e, "permissions") {
        None => Err(lacks("permissions")),
        Some(j) => match take_permissions(j) {
            Ok(permissions) => Ok(
                PluginManifest { name, version, description, entry, hooks, permissions },
            ),
            Err(m) => Err(m),
        },
    }
}

// ---------------------------------------------------------------------------
// Checking
// ---------------------------------------------------------------------------

pub open spec fn invalid_manifest(reason: Seq<char>, suggestion: Seq<char>) -> ErrorView {
    error("INVALID_MANIFEST"@, reason, suggestion)
}

/// A lowercase letter or a digit.
pub open spec fn is_name_char(c: char) -> bool {
    'a' <= c <= 'z' || '0' <= c <= '9'
}

/// Whether a plugin may have a name: lowercase letters, digits and dashes, and
/// no dash first.
pub open spec fn is_plugin_name(s: Seq<char>) -> bool {
    &&& s.len() > 0
    &&& is_name_char(s[0])
    &&& forall|i: int| 0 <= i < s.len() ==> is_name_char(#[trigger] s[i]) || s[i] == '-'
}

/// Whether a plugin may have a name.
pub fn valid_name(name: &str) -> (r: bool)
    ensures
        r == is_plugin_name(name@),
{
    let v = chars_of(name);
    if v.len() == 0 {
        return false;
    }
    let first = v[0];
    if !(('a' <= first && first <= 'z') || ('0' <= first && first <= '9')) {
        return false;
    }
    let mut i: usize = 0;
    while i < v.len()
        invariant
            i <= v@.len(),
            v@ == name@,
            forall|k: int| 0 <= k < i ==> is_name_char(#[trigger] name@[k]) || name@[k] == '-',
        decreases v@.len() - i,
    {
        let c = v[i];
        if !(('a' <= c && c <= 'z') || ('0' <= c && c <= '9') || c == '-') {
            assert(!is_name_char(name@[i as int]) && name@[i as int] != '-');
            return false;
        }
        i = i + 1;
    }
    true
}

/// A manifest that does not parse, with what the decoder says.
pub open spec fn undecodable(m: Seq<char>) -> ErrorView {
    invalid_manifest(
        "Manifest does not parse: "@ + m,
        "Fix tacitus-plugin.toml — see docs/PLUGINS.md for the schema."@,
    )
}

fn refuse_text(m: &str) -> (e: TacitusError)
    ensures
        e@ == undecodable(m@),
{
    let mut reason = "Manifest does not parse: ".to_owned();
    reason.append(m);
    TacitusError::new(
        "INVALID_MANIFEST",
        reason.as_str(),
        "Fix tacitus-plugin.toml — see docs/PLUGINS.md for the schema.",
    )
}

/// What reading a manifest file gave.
#[derive(Debug)]
pub enum ManifestRead {
    /// The file could not be read.
    Unreadable(String),
    /// The text was refused by the decoder, with its complaint.
    Refused(String),
    /// The text.
    Text(String),
}

/// The model of what reading a manifest file gave.
pub enum ReadView {
    Unreadable(Seq<char>),
    Refused(Seq<char>),
    Text(Seq<char>),
}

impl View for ManifestRead {
    type V = ReadView;

    open spec fn view(&self) -> ReadView {
        match *self {
            ManifestRead::Unreadable(e) => ReadView::Unreadable(e@),
            ManifestRead::Refused(m) => ReadView::Refused(m@),
            ManifestRead::Text(s) => ReadView::Text(s@),
        }
    }
}

/// The manifest of a TOML text, or why it has none.
pub open spec fn manifest_read(src: Seq<char>) -> Result<ManifestView, ErrorView> {
    match manifest_value(toml_read(src)) {
        Err(m) => Err(undecodable(m)),
        Ok(m) => if is_plugin_name(m.name) {
            Ok(m)
        } else {
            Err(
                invalid_manifest(
                    "Plugin name "@ + debug_text(m.name)
                        + " is invalid (want ^[a-z0-9][a-z0-9-]*$)."@,
                    "Use lowercase letters, digits and dashes, e.g. \"vault-digest\"."@,
                ),
            )
        },
    }
}

/// The manifest that what was read stands for.
pub open spec fn manifest_value(v: Result<JsonView, Seq<char>>) -> Result<ManifestView, Seq<char>> {
    match v {
        Err(m) => Err(m),
        Ok(JsonView::Object(e)) => manifest_of(e),
        Ok(_) => Err(wrong_type("manifest"@, "a table"@)),
    }
}

/// A manifest whose name is not that of its directory.
pub open spec fn misplaced(name: Seq<char>, dir: Seq<char>) -> ErrorView {
    invalid_manifest(
        "Manifest name "@ + debug_text(name) + " does not match its directory "@ + debug_text(dir)
            + "."@,
        "Rename the directory or the manifest's `name` so they match."@,
    )
}

/// What loading a manifest comes to.
pub open spec fn manifest_loaded(
    plugin_dir: Seq<char>,
    dir_name: Option<Seq<char>>,
    read: ReadView,
) -> Result<ManifestView, ErrorView> {
    match read {
        ReadView::Refused(m) => Err(undecodable(m)),
        ReadView::Unreadable(e) => Err(
            invalid_manifest(
                "Cannot read "@ + join_path(plugin_dir, "tacitus-plugin.toml"@) + ": "@ + e + "."@,
                "Every plugin directory needs a tacitus-plugin.toml manifest."@,
            ),
        ),
        ReadView::Text(src) => match manifest_read(src) {
            Err(e) => Err(e),
            Ok(m) => match dir_name {
                Some(d) => if d == m.name {
                    Ok(m)
                } else {
                    Err(misplaced(m.name, d))
                },
                None => Ok(m),
            },
        },
    }
}

/// Why a manifest may not have the tools from `i` on: one that is unknown, or
/// one that writes under a read-only scope.
pub open spec fn tools_refused(
    m: ManifestView,
    table: Seq<DescriptorView>,
    i: int,
) -> Option<ErrorView>
    decreases m.tools.len() - i,
{
    if i < 0 || i >= m.tools.len() {
        None
    } else {
        match find_tool(table, m.tools[i]) {
            None => Some(
                invalid_manifest(
                    "Unknown tool "@ + debug_text(m.tools[i]) + " in [permissions].tools."@,
                    "Valid tools: "@ + join(names_of(table), ", "@) + "."@,
                ),
            ),
            Some(k) => if table[k].writes && m.scope == PermissionScope::ReadOnly {
                Some(
                    invalid_manifest(
                        "Tool "@ + debug_text(m.tools[i])
                            + " writes to the vault but scope is \"read-only\"."@,
                        "Drop the tool from [permissions].tools or set scope = \"read-write\"."@,
                    ),
                )
            } else {
                tools_refused(m, table, i + 1)
            },
        }
    }
}

/// Whether an entry leaves the plugin's directory: an absolute path, or one
/// that goes up.
pub open spec fn escapes(entry: Seq<char>) -> bool {
    entry.len() > 0 && entry[0] == '/' || split_on(entry, '/').contains(".."@)
}

impl PluginManifest {
    /// Reads a manifest from its TOML text. The complaint about a text that is no
    /// TOML is that of the decoder; about a field it is this function's own.
    pub fn parse(toml_src: &str) -> (r: Result<Self, TacitusError>)
        ensures
            match r {
                Ok(m) => manifest_read(toml_src@) == Ok::<ManifestView, ErrorView>(m@),
                Err(e) => manifest_read(toml_src@) == Err::<ManifestView, ErrorView>(e@),
            },
    {
        let read: Result<PluginManifest, String> = match toml_from_text(toml_src) {
            Ok(v) => {
                let j = json_plain(&v);
                proof {
                    lemma_json_model(j);
                }
                match &j {
                    Json::Object(e) => take_manifest(e),
                    _ => Err(expected("manifest", "a table")),
                }
            },
            Err(m) => Err(m),
        };
        let manifest = match read {
            Ok(m) => m,
            Err(m) => {
                return Err(refuse_text(m.as_str()));
            },
        };
        if valid_name(manifest.name.as_str()) {
            Ok(manifest)
        } else {
            let mut reason = "Plugin name ".to_owned();
            reason.append(quoted(manifest.name.as_str()).as_str());
            reason.append(" is invalid (want ^[a-z0-9][a-z0-9-]*$).");
            Err(
                TacitusError::new(
                    "INVALID_MANIFEST",
                    reason.as_str(),
                    "Use lowercase letters, digits and dashes, e.g. \"vault-digest\".",
                ),
            )
        }
    }

    /// The manifest of a plugin directory: what reading its file gave, with
    /// the name pinned to that of the directory where it has one.
    pub fn load(
        plugin_dir: &str,
        dir_name: &Option<String>,
        read: &ManifestRead,
    ) -> (r: Result<Self, TacitusError>)
        ensures
            match r {
                Ok(m) => manifest_loaded(plugin_dir@, opt_text(*dir_name), read@) == Ok::<
                    ManifestView,
                    ErrorView,
                >(m@),
                Err(e) => manifest_loaded(plugin_dir@, opt_text(*dir_name), read@)
                    == Err::<ManifestView, ErrorView>(e@),
            },
    {
        let src = match read {
            ManifestRead::Text(s) => s,
            ManifestRead::Refused(m) => {
                return Err(refuse_text(m.as_str()));
            },
            ManifestRead::Unreadable(e) => {
                let mut reason = "Cannot read ".to_owned();
                reason.append(path_join(plugin_dir, "tacitus-plugin.toml").as_str());
                reason.append(": ");
                reason.append(e.as_str());
                reason.append(".");
                return Err(
                    TacitusError::new(
                        "INVALID_MANIFEST",
                        reason.as_str(),
                        "Every plugin directory needs a tacitus-plugin.toml manifest.",
                    ),
                );
            },
        };
        let manifest = match PluginManifest::parse(src.as_str()) {
            Ok(m) => m,
            Err(e) => {
                return Err(e);
            },
        };
        match dir_name {
            Some(d) => {
                if !str_eq(d.as_str(), manifest.name.as_str()) {
                    let mut reason = "Manifest name ".to_owned();
                    reason.append(quoted(manifest.name.as_str()).as_str());
                    reason.append(" does not match its directory ");
                    reason.append(quoted(d.as_str()).as_str());
                    reason.append(".");
                    return Err(
                        TacitusError::new(
                            "INVALID_MANIFEST",
                            reason.as_str(),
                            "Rename the directory or the manifest's `name` so they match.",
                        ),
                    );
                }
            },
            None => {},
        }
        Ok(manifest)
    }

    /// Checks the tools against a table: every one must exist, and tools that
    /// write need a read-write scope.
    pub fn validate(&self, tools: &Vec<ToolDescriptor>) -> (r: Result<(), TacitusError>)
        ensures
            match tools_refused(self@, descriptors_view(tools@), 0) {
                Some(e) => r matches Err(x) && x@ == e,
                None => r is Ok,
            },
    {
        let ghost table = descriptors_view(tools@);
        let ghost m = self@;
        let mut i: usize = 0;
        while i < self.permissions.tools.len()
            invariant
                i <= self.permissions.tools@.len(),
                table == descriptors_view(tools@),
                m == self@,
                tools_refused(m, table, 0) == tools_refused(m, table, i as int),
            decreases self.permissions.tools@.len() - i,
        {
            let wanted = self.permissions.tools[i].as_str();
            assert(m.tools[i as int] == wanted@);
            match tool_position(tools, wanted) {
                None => {
                    let mut reason = "Unknown tool ".to_owned();
                    reason.append(quoted(wanted).as_str());
                    reason.append(" in [permissions].tools.");
                    let names = tool_names(tools);
                    let mut suggestion = "Valid tools: ".to_owned();
                    suggestion.append(join_strings(&names, ", ").as_str());
                    suggestion.append(".");
                    return Err(
                        TacitusError::new(
                            "INVALID_MANIFEST",
                            reason.as_str(),
                            suggestion.as_str(),
                        ),
                    );
                },
                Some(k) => {
                    assert(table[k as int] == tools@[k as int]@);
                    if tools[k].writes && self.permissions.scope == PermissionScope::ReadOnly {
                        let mut reason = "Tool ".to_owned();
                        reason.append(quoted(wanted).as_str());
                        reason.append(" writes to the vault but scope is \"read-only\".");
                        return Err(
                            TacitusError::new(
                                "INVALID_MANIFEST",
                                reason.as_str(),
                                "Drop the tool from [permissions].tools or set scope = \"read-write\".",
                            ),
                        );
                    }
                },
            }
            i = i + 1;
        }
        Ok(())
    }

    /// Where the module is, inside the plugin's directory.
    pub fn wasm_path(&self, plugin_dir: &str) -> (r: Result<String, TacitusError>)
        ensures
            if escapes(self.entry@) {
                r matches Err(e) && e@ == invalid_manifest(
                    "entry "@ + debug_text(self.entry@) + " escapes the plugin directory."@,
                    "Use a path relative to tacitus-plugin.toml, e.g. \"plugin.wasm\"."@,
                )
            } else {
                r matches Ok(p) && p@ == join_path(plugin_dir@, self.entry@)
            },
    {
        let v = chars_of(self.entry.as_str());
        let absolute: bool = v.len() > 0 && v[0] == '/';
        let parts = split_char(self.entry.as_str(), '/');
        if absolute || has_string(&parts, "..") {
            let mut reason = "entry ".to_owned();
            reason.append(quoted(self.entry.as_str()).as_str());
            reason.append(" escapes the plugin directory.");
            return Err(
                TacitusError::new(
                    "INVALID_MANIFEST",
                    reason.as_str(),
                    "Use a path relative to tacitus-plugin.toml, e.g. \"plugin.wasm\".",
                ),
            );
        }
        Ok(path_join(plugin_dir, self.entry.as_str()))
    }

    /// A copy of the manifest.
    pub fn copy(&self) -> (r: Self)
        ensures
            r@ == self@,
    {
        PluginManifest {
            name: self.name.clone(),
            version: self.version.clone(),
            description: copy_opt(&self.description),
            entry: self.entry.clone(),
            hooks: copy_strings(&self.hooks),
            permissions: Permissions {
                scope: self.permissions.scope,
                tools: copy_strings(&self.permissions.tools),
            },
        }
    }
}

/// The first `n` components of a path once `.` and `..` are followed.
pub open spec fn followed(parts: Seq<Seq<char>>, n: int) -> Seq<Seq<char>>
    decreases n,
{
    if n <= 0 {
        seq![]
    } else {
        let done = followed(parts, n - 1);
        let part = parts[n - 1];
        if part.len() == 0 || part == "."@ {
            done
        } else if part == ".."@ {
            if done.len() > 0 {
                done.drop_last()
            } else {
                done
            }
        } else {
            done.push(part)
        }
    }
}

/// Where a path leads: its components once `.` and `..` are followed.
pub open spec fn leads_to(path: Seq<char>) -> Seq<Seq<char>> {
    let parts = split_on(path, '/');
    followed(parts, parts.len() as int)
}

proof fn lemma_followed_front(a: Seq<Seq<char>>, b: Seq<Seq<char>>, n: int)
    requires
        0 <= n <= a.len(),
    ensures
        followed(a + b, n) == followed(a, n),
    decreases n,
{
    if n > 0 {
        lemma_followed_front(a, b, n - 1);
        assert((a + b)[n - 1] == a[n - 1]);
    }
}

proof fn lemma_followed_grows(a: Seq<Seq<char>>, b: Seq<Seq<char>>, n: int)
    requires
        0 <= n <= b.len(),
        !b.contains(".."@),
    ensures
        followed(a, a.len() as int).is_prefix_of(followed(a + b, a.len() + n)),
    decreases n,
{
    if n == 0 {
        lemma_followed_front(a, b, a.len() as int);
    } else {
        lemma_followed_grows(a, b, n - 1);
        assert((a + b)[a.len() + n - 1] == b[n - 1]);
        assert(b.contains(b[n - 1]));
    }
}

/// The module of a plugin is inside the plugin's directory: where an entry is
/// not refused, its path leads to the directory or below it.
pub proof fn law_entry_stays_inside(dir: Seq<char>, entry: Seq<char>)
    requires
        !escapes(entry),
    ensures
        leads_to(dir).is_prefix_of(leads_to(join_path(dir, entry))),
{
    let b = split_on(entry, '/');
    reveal_strlit("/");
    assert("/"@ =~= seq!['/']);
    if dir.len() == 0 {
        lemma_next_char(dir, '/', 0);
        assert(split_on(dir, '/') =~= seq![dir.subrange(0, 0)]);
        reveal_with_fuel(followed, 2);
    } else if dir.last() == '/' {
        let front = dir.drop_last();
        let nothing: Seq<char> = seq![];
        assert(dir =~= front + seq!['/'] + nothing);
        assert(dir + entry =~= front + seq!['/'] + entry);
        lemma_split_joined(front, entry, '/');
        lemma_split_joined(front, nothing, '/');
        lemma_next_char(nothing, '/', 0);
        let a = split_on(front, '/');
        let none = split_on(nothing, '/');
        assert(none =~= seq![nothing.subrange(0, 0)]);
        assert(none[0].len() == 0);
        assert((a + none)[a.len() as int] == none[0]);
        lemma_followed_front(a, none, a.len() as int);
        lemma_followed_grows(a, b, b.len() as int);
    } else {
        lemma_split_joined(dir, entry, '/');
        lemma_followed_grows(split_on(dir, '/'), b, b.len() as int);
    }
}

} // verus!
