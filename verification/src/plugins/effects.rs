//! What a manifest grants and what a guest is held to.
use crate::error::ErrorView;
use crate::plugins::host::{
    clamped, exports_refused, load_planned, output_place, run_input, slice_refused, version_refused,
    Exports, GuestFault,
};
use crate::plugins::manifest::{
    escapes, key_from, list_texts, manifest_fields, manifest_loaded, manifest_of, manifest_read,
    permission_fields, permissions_of, scope_named, scope_of, stranger_from, tools_refused,
    value_of, value_texts, ManifestView, ReadView,
};
use crate::plugins::manifest::is_plugin_name;
use crate::text::split_on;
use crate::tools::table::{find_tool, find_tool_from, DescriptorView};
use crate::vault::json::JsonView;
use crate::vault::write::PermissionScope;
use vstd::prelude::*;

verus! {

// ---------------------------------------------------------------------------
// Manifests
// ---------------------------------------------------------------------------

proof fn lemma_key_from(e: Seq<(Seq<char>, JsonView)>, key: Seq<char>, i: int)
    requires
        0 <= i,
    ensures
        match key_from(e, key, i) {
            Some(p) => i <= p < e.len() && e[p].0 == key && forall|k: int|
                i <= k < p ==> (#[trigger] e[k]).0 != key,
            None => forall|k: int| i <= k < e.len() ==> (#[trigger] e[k]).0 != key,
        },
    decreases e.len() - i,
{
    if i < e.len() {
        lemma_key_from(e, key, i + 1);
    }
}

proof fn lemma_stranger(e: Seq<(Seq<char>, JsonView)>, known: Seq<Seq<char>>, i: int)
    requires
        0 <= i,
    ensures
        stranger_from(e, known, i) is None <==> forall|k: int|
            i <= k < e.len() ==> known.contains((#[trigger] e[k]).0),
        stranger_from(e, known, i) matches Some(name) ==> !known.contains(name),
    decreases e.len() - i,
{
    if i < e.len() {
        lemma_stranger(e, known, i + 1);
    }
}

proof fn lemma_list_texts(v: Seq<JsonView>, n: int)
    requires
        0 <= n <= v.len(),
    ensures
        list_texts(v, n) matches Some(t) ==> t.len() == n && forall|k: int|
            0 <= k < n ==> #[trigger] v[k] == JsonView::Text(t[k]),
        list_texts(v, n) is None ==> exists|k: int| 0 <= k < n && !((#[trigger] v[k]) is Text),
    decreases n,
{
    if n > 0 {
        lemma_list_texts(v, n - 1);
        match (list_texts(v, n - 1), v[n - 1]) {
            (Some(done), JsonView::Text(s)) => {
                let t = done.push(s);
                assert forall|k: int| 0 <= k < n implies #[trigger] v[k] == JsonView::Text(t[k]) by {
                    if k < n - 1 {
                        assert(t[k] == done[k]);
                    }
                }
            },
            (Some(done), _) => {
                assert(!(v[n - 1] is Text));
            },
            _ => {
                let k = choose|k: int| 0 <= k < n - 1 && !((#[trigger] v[k]) is Text);
                assert(!(v[k] is Text));
            },
        }
    }
}

/// A list of texts is read item by item, and one with anything else in it not at all.
pub proof fn law_a_list_of_texts_is_read_item_by_item(v: Seq<JsonView>)
    ensures
        match value_texts(JsonView::List(v)) {
            Some(t) => t.len() == v.len() && forall|k: int|
                0 <= k < v.len() ==> #[trigger] v[k] == JsonView::Text(t[k]),
            None => exists|k: int| 0 <= k < v.len() && !((#[trigger] v[k]) is Text),
        },
{
    lemma_list_texts(v, v.len() as int);
}

/// The scopes have their names, and nothing else names one.
pub proof fn law_scopes_go_by_name(name: Seq<char>)
    ensures
        scope_named(name) == Some(PermissionScope::ReadOnly) <==> name == "read-only"@,
        scope_named(name) == Some(PermissionScope::ReadWrite) <==> name == "read-write"@,
        scope_of(JsonView::Text(name)) == scope_named(name),
{
    reveal_strlit("read-only");
    reveal_strlit("read-write");
    assert("read-only"@.len() != "read-write"@.len());
}

/// A manifest is what its fields say: its name, its version and its module are the texts
/// under their keys; its description and its hooks may be missing; and it has no field
/// that is not known.
pub proof fn law_a_manifest_says_what_its_fields_say(e: Seq<(Seq<char>, JsonView)>, k: int)
    requires
        manifest_of(e) is Ok,
    ensures
        ({
            let m = manifest_of(e)->Ok_0;
            &&& value_of(e, "name"@) == Some(JsonView::Text(m.name))
            &&& value_of(e, "version"@) == Some(JsonView::Text(m.version))
            &&& value_of(e, "entry"@) == Some(JsonView::Text(m.entry))
            &&& m.description matches Some(d) ==> value_of(e, "description"@) == Some(
                JsonView::Text(d),
            )
            &&& m.description is None ==> value_of(e, "description"@) is None
            &&& value_of(e, "hooks"@) is None ==> m.hooks.len() == 0
            &&& value_of(e, "hooks"@) matches Some(h) ==> value_texts(h) == Some(m.hooks)
            &&& value_of(e, "permissions"@) matches Some(p) && permissions_of(p) == Ok::<
                (PermissionScope, Seq<Seq<char>>),
                Seq<char>,
            >((m.scope, m.tools))
            &&& 0 <= k < e.len() ==> manifest_fields().contains(e[k].0)
        }),
{
    lemma_stranger(e, manifest_fields(), 0);
}

/// The permissions of a plugin are the scope and the tools that it names, and a table of
/// them has no other field.
pub proof fn law_permissions_are_a_scope_and_tools(e: Seq<(Seq<char>, JsonView)>, k: int)
    requires
        permissions_of(JsonView::Object(e)) is Ok,
    ensures
        ({
            let g = permissions_of(JsonView::Object(e))->Ok_0;
            &&& value_of(e, "scope"@) matches Some(s) && scope_of(s) == Some(g.0)
            &&& value_of(e, "tools"@) matches Some(t) && value_texts(t) == Some(g.1)
            &&& 0 <= k < e.len() ==> e[k].0 == "scope"@ || e[k].0 == "tools"@
        }),
{
    lemma_stranger(e, permission_fields(), 0);
    if 0 <= k < e.len() {
        assert(permission_fields().contains(e[k].0));
    }
}

/// The value under a key is that of its first entry.
pub proof fn law_a_field_is_its_first_entry(e: Seq<(Seq<char>, JsonView)>, key: Seq<char>, p: int)
    ensures
        value_of(e, key) is None <==> forall|k: int| 0 <= k < e.len() ==> (#[trigger] e[k]).0 != key,
        0 <= p < e.len() && e[p].0 == key && (forall|k: int|
            0 <= k < p ==> (#[trigger] e[k]).0 != key) ==> value_of(e, key) == Some(e[p].1),
{
    lemma_key_from(e, key, 0);
    if 0 <= p < e.len() && e[p].0 == key && (forall|k: int|
        0 <= k < p ==> (#[trigger] e[k]).0 != key) {
        let q = key_from(e, key, 0)->0;
        if q < p {
            assert(e[q].0 != key);
        } else if p < q {
            assert(e[p].0 != key);
        }
    }
}

/// A plugin has a name of lower-case letters, digits and dashes, and no dash first; a
/// manifest with another is refused, and so is one whose directory has another name.
pub proof fn law_a_plugin_has_the_name_of_its_directory(
    dir: Seq<char>,
    name: Seq<char>,
    src: Seq<char>,
)
    ensures
        manifest_read(src) matches Ok(m) ==> is_plugin_name(m.name) && m.name.len() > 0
            && m.name[0] != '-' && forall|i: int|
            0 <= i < m.name.len() ==> 'a' <= #[trigger] m.name[i] <= 'z' || '0' <= m.name[i] <= '9'
                || m.name[i] == '-',
        manifest_loaded(dir, Some(name), ReadView::Text(src)) is Ok <==> manifest_read(src) is Ok
            && manifest_read(src)->Ok_0.name == name,
        manifest_loaded(dir, Some(name), ReadView::Text(src)) matches Ok(m) ==> manifest_read(src)
            == Ok::<ManifestView, ErrorView>(m),
{
    if let Ok(m) = manifest_read(src) {
        assert forall|i: int| 0 <= i < m.name.len() implies 'a' <= #[trigger] m.name[i] <= 'z' || '0'
            <= m.name[i] <= '9' || m.name[i] == '-' by {
            assert(crate::plugins::manifest::is_name_char(m.name[i]) || m.name[i] == '-');
        }
    }
}

proof fn lemma_find_tool(t: Seq<DescriptorView>, name: Seq<char>, i: int)
    requires
        0 <= i,
    ensures
        match find_tool_from(t, name, i) {
            Some(k) => i <= k < t.len() && t[k].name == name,
            None => forall|k: int| i <= k < t.len() ==> (#[trigger] t[k]).name != name,
        },
    decreases t.len() - i,
{
    if i < t.len() {
        lemma_find_tool(t, name, i + 1);
    }
}

proof fn lemma_tools_refused(m: ManifestView, table: Seq<DescriptorView>, i: int)
    requires
        0 <= i,
    ensures
        tools_refused(m, table, i) is None <==> forall|k: int|
            i <= k < m.tools.len() ==> {
                let at = find_tool(table, #[trigger] m.tools[k]);
                at is Some && (table[at->0].writes ==> m.scope == PermissionScope::ReadWrite)
            },
        tools_refused(m, table, i) matches Some(e) ==> e.code == "INVALID_MANIFEST"@,
    decreases m.tools.len() - i,
{
    if i < m.tools.len() {
        lemma_tools_refused(m, table, i + 1);
        let at = find_tool(table, m.tools[i]);
        if tools_refused(m, table, i) is None {
            assert(at is Some);
        }
    }
}

/// A manifest may name exactly the tools that there are, and those that write only with a
/// scope to write.
pub proof fn law_a_manifest_names_tools_that_it_may_use(m: ManifestView, table: Seq<DescriptorView>)
    ensures
        tools_refused(m, table, 0) is None <==> forall|k: int|
            0 <= k < m.tools.len() ==> {
                let at = find_tool(table, #[trigger] m.tools[k]);
                at is Some && (table[at->0].writes ==> m.scope == PermissionScope::ReadWrite)
            },
        forall|name: Seq<char>| #[trigger]
            find_tool(table, name) matches Some(at) ==> 0 <= at < table.len() && table[at].name
                == name,
        forall|name: Seq<char>, k: int|
            #[trigger] find_tool(table, name) is None && 0 <= k < table.len() ==> (
            #[trigger] table[k]).name != name,
{
    lemma_tools_refused(m, table, 0);
    assert forall|name: Seq<char>| #[trigger]
        find_tool(table, name) matches Some(at) ==> 0 <= at < table.len() && table[at].name == name by {
        lemma_find_tool(table, name, 0);
    }
    assert forall|name: Seq<char>, k: int|
        #[trigger] find_tool(table, name) is None && 0 <= k < table.len() implies (
    #[trigger] table[k]).name != name by {
        lemma_find_tool(table, name, 0);
    }
}

/// A module lies in the directory of its plugin: an entry that is an absolute path, or
/// that goes up anywhere, is refused, and no other is.
pub proof fn law_an_entry_neither_leaves_nor_goes_up(entry: Seq<char>)
    ensures
        escapes(entry) <==> (entry.len() > 0 && entry[0] == '/') || exists|k: int|
            0 <= k < split_on(entry, '/').len() && #[trigger] split_on(entry, '/')[k] == ".."@,
{
}

/// A plugin is loaded only where its manifest is good, its tools are allowed and its
/// module stays inside: then the module is the entry under the directory.
pub proof fn law_loading_needs_all_of_it(
    dir: Seq<char>,
    name: Option<Seq<char>>,
    read: ReadView,
    table: Seq<DescriptorView>,
)
    ensures
        load_planned(dir, name, read, table) is Ok <==> (manifest_loaded(dir, name, read) matches Ok(m)
            && tools_refused(m, table, 0) is None && !escapes(m.entry)),
        load_planned(dir, name, read, table) matches Ok(p) ==> manifest_loaded(dir, name, read)
            == Ok::<ManifestView, ErrorView>(p.0) && p.1 == crate::paths::join_path(dir, p.0.entry),
{
}

// ---------------------------------------------------------------------------
// Guests
// ---------------------------------------------------------------------------

/// A guest is let in exactly where it exports its memory and all four functions, each of
/// the right type.
pub proof fn law_a_guest_exports_all_of_it(x: Exports)
    ensures
        exports_refused(x) is None <==> x.memory && x.abi_version is Found && x.alloc is Found
            && x.dealloc is Found && x.run is Found,
{
}

/// A guest is let in exactly where it says that it speaks the one version there is.
pub proof fn law_a_guest_speaks_version_one(answer: Result<i32, GuestFault>)
    ensures
        version_refused(answer) is None <==> answer is Ok && answer->Ok_0 == 1,
{
}

/// What a guest points to must lie in its memory.
pub proof fn law_a_guest_points_into_its_memory(ptr: int, len: int, size: nat)
    ensures
        slice_refused(ptr, len, size) is None <==> 0 <= ptr && 0 <= len && ptr + len <= size,
{
}

/// A log level is one of four: a lower one counts as the lowest, a higher one as the
/// highest, and any between as itself.
pub proof fn law_a_log_level_is_one_of_four(level: i32)
    ensures
        0 <= clamped(level) <= 3,
        0 <= level <= 3 ==> clamped(level) == level,
        level < 0 ==> clamped(level) == 0,
        level > 3 ==> clamped(level) == 3,
{
}

/// The input of a run holds what the caller passes, and the name and version of the
/// plugin.
pub proof fn law_a_run_is_told_its_input_and_its_name(
    input: JsonView,
    name: Seq<char>,
    version: Seq<char>,
)
    ensures
        ({
            let e = run_input(input, name, version)->Object_0;
            &&& e.len() == 2
            &&& e[0] == ("input"@, input)
            &&& e[1].0 == "plugin"@
            &&& e[1].1 == JsonView::Object(
                seq![("name"@, JsonView::Text(name)), ("version"@, JsonView::Text(version))],
            )
        }),
{
}

/// A guest's answer is read as a place: the upper half of its bits is where the output
/// starts and the lower half how long it is, each as a signed number. Nothing but zero
/// stands for no output.
pub proof fn law_an_answer_is_a_place(answer: i64)
    ensures
        output_place(Ok(answer)) is Err <==> answer == 0,
        answer > 0 ==> {
            let p = output_place(Ok(answer))->Ok_0;
            let upper = answer as int / 0x1_0000_0000;
            let lower = answer as int % 0x1_0000_0000;
            &&& p.0 == upper
            &&& lower <= 0x7fff_ffff ==> p.1 == lower
            &&& lower > 0x7fff_ffff ==> p.1 == lower - 0x1_0000_0000
        },
{
}

} // verus!
