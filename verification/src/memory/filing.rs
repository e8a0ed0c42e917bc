//! What a memory file holds, and in which order memory files are read.
use crate::memory::store::{by_text, markdown_from, memory_head, sorted_texts};
use crate::memory::types::MemoryView;
use crate::order::{
    before, law_stable_order, lemma_before_asym, lemma_before_total, lemma_before_trans,
    lemma_stable_order_has, lemma_stable_order_range, stable_order, weak_order,
};
use crate::paths::is_markdown_name;
use crate::vault::value::YamlView;
use vstd::prelude::*;

verus! {

/// The texts come in ascending order, as many as were given.
pub proof fn law_sorted_texts_ascend(items: Seq<Seq<char>>, a: int, b: int)
    requires
        0 <= a < b < items.len(),
    ensures
        sorted_texts(items).len() == items.len(),
        before(sorted_texts(items)[a], sorted_texts(items)[b]) || sorted_texts(items)[a]
            == sorted_texts(items)[b],
{
    let less = by_text(items);
    let n = items.len();
    assert(weak_order(n, less)) by {
        assert forall|i: int, j: int| 0 <= i < n && 0 <= j < n && #[trigger] less(i, j) implies !less(
            j,
            i,
        ) by {
            lemma_before_asym(items[i], items[j]);
        }
        assert forall|i: int, j: int, k: int|
            0 <= i < n && 0 <= j < n && 0 <= k < n && #[trigger] less(i, k) implies (#[trigger] less(
            i,
            j,
        ) || less(j, k)) by {
            if !before(items[i], items[j]) && !before(items[j], items[k]) {
                if before(items[j], items[i]) {
                    lemma_before_trans(items[j], items[i], items[k]);
                } else {
                    lemma_before_total(items[i], items[j]);
                }
            }
        }
    }
    law_stable_order(n, less);
    let o = stable_order(n, less);
    assert(!less(o[b], o[a]));
    if !before(items[o[a]], items[o[b]]) {
        lemma_before_total(items[o[a]], items[o[b]]);
    }
}

/// Sorting loses no text and puts in none.
pub proof fn law_sorting_keeps_the_texts(items: Seq<Seq<char>>, t: Seq<char>)
    ensures
        sorted_texts(items).contains(t) <==> items.contains(t),
{
    let less = by_text(items);
    let n = items.len();
    let o = stable_order(n, less);
    lemma_stable_order_range(n, less);
    let s = sorted_texts(items);
    if items.contains(t) {
        let k = choose|k: int| 0 <= k < items.len() && items[k] == t;
        lemma_stable_order_has(n, less, k);
        let a = choose|a: int| 0 <= a < o.len() && o[a] == k;
        assert(s[a] == t);
    }
    if s.contains(t) {
        let a = choose|a: int| 0 <= a < s.len() && s[a] == t;
        assert(items[o[a]] == t);
    }
}

proof fn lemma_markdown(names: Seq<Seq<char>>, i: int, t: Seq<char>)
    requires
        0 <= i <= names.len(),
    ensures
        markdown_from(names, i).contains(t) <==> is_markdown_name(t) && names.subrange(
            i,
            names.len() as int,
        ).contains(t),
    decreases names.len() - i,
{
    let rest = names.subrange(i, names.len() as int);
    let m = markdown_from(names, i);
    if i < names.len() {
        lemma_markdown(names, i + 1, t);
        let less = names.subrange(i + 1, names.len() as int);
        let n = markdown_from(names, i + 1);
        assert(rest.contains(t) <==> names[i] == t || less.contains(t)) by {
            assert(rest[0] == names[i]);
            if less.contains(t) {
                let k = choose|k: int| 0 <= k < less.len() && less[k] == t;
                assert(rest[k + 1] == t);
            }
            if rest.contains(t) && names[i] != t {
                let k = choose|k: int| 0 <= k < rest.len() && rest[k] == t;
                assert(less[k - 1] == t);
            }
        }
        if is_markdown_name(names[i]) {
            assert(m[0] == names[i]);
            if n.contains(t) {
                let k = choose|k: int| 0 <= k < n.len() && n[k] == t;
                assert(m[k + 1] == t);
            }
            if m.contains(t) && names[i] != t {
                let k = choose|k: int| 0 <= k < m.len() && m[k] == t;
                assert(n[k - 1] == t);
            }
        }
    }
}

/// The files that are read are exactly the Markdown files of the directory.
pub proof fn law_memories_are_the_markdown_files(names: Seq<Seq<char>>, t: Seq<char>)
    ensures
        sorted_texts(markdown_from(names, 0)).contains(t) <==> is_markdown_name(t)
            && names.contains(t),
{
    lemma_markdown(names, 0, t);
    law_sorting_keeps_the_texts(markdown_from(names, 0), t);
    assert(names.subrange(0, names.len() as int) =~= names);
}

/// The value under a name in a table, where the name stands in it once.
pub open spec fn filed(y: YamlView, name: Seq<char>, value: YamlView) -> bool {
    y matches YamlView::Table(e) && (exists|k: int|
        0 <= k < e.len() && #[trigger] e[k] == (YamlView::Text(name), value)) && forall|k: int|
        0 <= k < e.len() && (#[trigger] e[k]).0 == YamlView::Text(name) ==> e[k].1 == value
}

/// Whether a name does not stand in a table.
pub open spec fn unfiled(y: YamlView, name: Seq<char>) -> bool {
    y matches YamlView::Table(e) && forall|k: int|
        0 <= k < e.len() ==> (#[trigger] e[k]).0 != YamlView::Text(name)
}

proof fn lemma_names_differ()
    ensures
        "id"@.len() == 2,
        "key"@.len() == 3 && "key"@[0] == 'k',
        "ttl"@.len() == 3 && "ttl"@[0] == 't',
        "type"@.len() == 4 && "type"@[1] == 'y',
        "tags"@.len() == 4 && "tags"@[1] == 'a',
        "source"@.len() == 6 && "source"@[0] == 's',
        "origin"@.len() == 6 && "origin"@[0] == 'o',
        "author"@.len() == 6 && "author"@[0] == 'a',
        "timestamp"@.len() == 9,
{
    reveal_strlit("id");
    reveal_strlit("key");
    reveal_strlit("ttl");
    reveal_strlit("type");
    reveal_strlit("tags");
    reveal_strlit("source");
    reveal_strlit("origin");
    reveal_strlit("author");
    reveal_strlit("timestamp");
}

/// A memory file says everything of its memory but the content: each field under its own
/// name, and those that a memory need not have only where it has them.
pub proof fn law_a_memory_file_says_all_of_its_memory(m: MemoryView)
    ensures
        filed(memory_head(m), "id"@, YamlView::Text(m.id)),
        filed(memory_head(m), "type"@, YamlView::Text(m.memory_type.name())),
        filed(
            memory_head(m),
            "tags"@,
            YamlView::List(Seq::new(m.tags.len(), |i: int| YamlView::Text(m.tags[i]))),
        ),
        m.key matches Some(k) ==> filed(memory_head(m), "key"@, YamlView::Text(k)),
        m.key is None ==> unfiled(memory_head(m), "key"@),
        m.ttl matches Some(n) ==> filed(memory_head(m), "ttl"@, YamlView::Int(n as int)),
        m.ttl is None ==> unfiled(memory_head(m), "ttl"@),
{
    lemma_names_differ();
    let head = memory_head(m);
    let e = head->Table_0;
    let tags = Seq::new(m.tags.len(), |i: int| YamlView::Text(m.tags[i]));
    assert(m.tags.map_values(|s: Seq<char>| YamlView::Text(s)) =~= tags);
    assert(e[0] == (YamlView::Text("id"@), YamlView::Text(m.id)));
    assert(e[1] == (YamlView::Text("type"@), YamlView::Text(m.memory_type.name())));
    assert(e[2].0 == YamlView::Text("tags"@));
    assert(e[2].1 == YamlView::List(tags));
    let at: int = if m.key is Some {
        4
    } else {
        3
    };
    assert(e[at].0 == YamlView::Text("source"@));
    if let Some(k) = m.key {
        assert(e[3] == (YamlView::Text("key"@), YamlView::Text(k)));
    }
    if let Some(n) = m.ttl {
        assert(e[at + 1] == (YamlView::Text("ttl"@), YamlView::Int(n as int)));
        assert(e.len() == at + 2);
    } else {
        assert(e.len() == at + 1);
    }
}

/// A memory file says where its memory comes from: the origin, the author and the moment.
pub proof fn law_a_memory_file_says_its_source(m: MemoryView) -> (source: YamlView)
    ensures
        filed(memory_head(m), "source"@, source),
        filed(source, "origin"@, YamlView::Text(m.source.origin)),
        filed(source, "author"@, YamlView::Text(m.source.author.name())),
        filed(source, "timestamp"@, YamlView::Text(m.source.timestamp)),
{
    lemma_names_differ();
    let e = memory_head(m)->Table_0;
    let at: int = if m.key is Some {
        4
    } else {
        3
    };
    let source = e[at].1;
    let s = source->Table_0;
    assert(e[0].0 == YamlView::Text("id"@));
    assert(e[1].0 == YamlView::Text("type"@));
    assert(e[2].0 == YamlView::Text("tags"@));
    assert(e[at] == (YamlView::Text("source"@), source));
    if m.key is Some {
        assert(e[3].0 == YamlView::Text("key"@));
    }
    if m.ttl is Some {
        assert(e[at + 1].0 == YamlView::Text("ttl"@));
        assert(e.len() == at + 2);
    } else {
        assert(e.len() == at + 1);
    }
    assert(s.len() == 3);
    assert(s[0] == (YamlView::Text("origin"@), YamlView::Text(m.source.origin)));
    assert(s[1] == (YamlView::Text("author"@), YamlView::Text(m.source.author.name())));
    assert(s[2] == (YamlView::Text("timestamp"@), YamlView::Text(m.source.timestamp)));
    source
}

} // verus!
