//! Memories on disk: one Markdown file each, YAML frontmatter and the content
//! as its body, under `.tacitus/memory/`.
use crate::memory::types::{Memory, MemoryType, MemoryView, Provenance};
use crate::order::{before, positions, sort_positions, stable_order, str_before};
use crate::paths::{is_markdown_name, join_path, markdown_name, path_join};
use crate::text::{
    chars_of, copy_opt, copy_strings, find_pattern, has_prefix, holds, lemma_back_white,
    lemma_next_match,
    matches_at, next_match, opt_text, pattern_at, string_range, tail, texts, trim_end, trim_end_str,
};
use crate::vault::value::{
    is_field, is_record, is_word_key, items_view, lemma_model, render_yaml, yaml_text, Yaml,
    YamlView,
};
use vstd::prelude::*;
use vstd::string::*;

verus! {

/// Everything of a memory but its content, which is the body of its file.
#[derive(Debug)]
pub struct Frontmatter {
    pub id: String,
    pub memory_type: MemoryType,
    pub tags: Vec<String>,
    pub key: Option<String>,
    pub source: Provenance,
    pub ttl: Option<u64>,
}

impl Frontmatter {
    /// The memory with this frontmatter and the given content.
    pub open spec fn with_content(self, content: Seq<char>) -> MemoryView {
        MemoryView {
            id: self.id@,
            memory_type: self.memory_type,
            content,
            tags: texts(self.tags@),
            key: opt_text(self.key),
            source: self.source@,
            ttl: self.ttl,
        }
    }

    /// The frontmatter of a memory.
    pub fn of(memory: &Memory) -> (r: Self)
        ensures
            r.with_content(memory.content@) == memory@,
    {
        Frontmatter {
            id: memory.id.clone(),
            memory_type: memory.memory_type,
            tags: copy_strings(&memory.tags),
            key: copy_opt(&memory.key),
            source: memory.source.clone(),
            ttl: memory.ttl,
        }
    }

    /// The memory of a frontmatter and a body.
    pub fn into_memory(self, content: String) -> (r: Memory)
        ensures
            r@ == self.with_content(content@),
    {
        Memory {
            id: self.id,
            memory_type: self.memory_type,
            content,
            tags: self.tags,
            key: self.key,
            source: self.source,
            ttl: self.ttl,
        }
    }
}

/// Where the memories of a vault stand. A file is named by the stable id of
/// its memory, so saving one twice leaves one file.
pub struct MemoryStore {
    pub memory_dir: String,
}

impl MemoryStore {
    pub fn new(vault_dir: &str) -> (r: Self)
        ensures
            r.memory_dir@ == join_path(join_path(vault_dir@, ".tacitus"@), "memory"@),
    {
        let dir = path_join(vault_dir, ".tacitus");
        MemoryStore { memory_dir: path_join(dir.as_str(), "memory") }
    }

    /// The file of the memory `id`.
    pub fn file_of(&self, id: &str) -> (r: String)
        ensures
            r@ == join_path(self.memory_dir@, id@ + ".md"@),
    {
        let mut name = id.to_owned();
        name.append(".md");
        path_join(self.memory_dir.as_str(), name.as_str())
    }

    /// The file that a memory is written to before it takes its place.
    pub fn temp_of(&self, id: &str) -> (r: String)
        ensures
            r@ == join_path(self.memory_dir@, "."@ + id@ + ".tmp"@),
    {
        let mut name = ".".to_owned();
        name.append(id);
        name.append(".tmp");
        path_join(self.memory_dir.as_str(), name.as_str())
    }
}

/// The Markdown names among `names` from `i` on.
pub open spec fn markdown_from(names: Seq<Seq<char>>, i: int) -> Seq<Seq<char>>
    decreases names.len() - i,
{
    if i < 0 || i >= names.len() {
        seq![]
    } else if is_markdown_name(names[i]) {
        seq![names[i]] + markdown_from(names, i + 1)
    } else {
        markdown_from(names, i + 1)
    }
}

/// The order of texts at positions.
pub open spec fn by_text(items: Seq<Seq<char>>) -> spec_fn(int, int) -> bool {
    |a: int, b: int| before(items[a], items[b])
}

/// `items` in ascending order.
pub open spec fn sorted_texts(items: Seq<Seq<char>>) -> Seq<Seq<char>> {
    stable_order(items.len(), by_text(items)).map_values(|k: int| items[k])
}

/// `items` in ascending order.
pub(crate) fn sort_strings(items: &Vec<String>) -> (r: Vec<String>)
    ensures
        texts(r@) == sorted_texts(texts(items@)),
{
    let n: usize = items.len();
    let ghost want = sorted_texts(texts(items@));
    let less = |a: usize, b: usize| -> (r: bool)
        requires
            a < n,
            b < n,
            n == items@.len(),
        ensures
            r == by_text(texts(items@))(a as int, b as int),
        { str_before(items[a].as_str(), items[b].as_str()) };
    let order = sort_positions(n, less, Ghost(by_text(texts(items@))));
    let mut out: Vec<String> = Vec::new();
    let mut k: usize = 0;
    while k < order.len()
        invariant
            k <= order@.len(),
            order@.len() == items@.len(),
            positions(order@) == stable_order(items@.len(), by_text(texts(items@))),
            want == sorted_texts(texts(items@)),
            forall|a: int| 0 <= a < order@.len() ==> #[trigger] order@[a] < items@.len(),
            texts(out@) == want.take(k as int),
        decreases order@.len() - k,
    {
        let ghost prev = texts(out@);
        assert(positions(order@)[k as int] == order@[k as int]);
        out.push(items[order[k]].clone());
        assert(texts(out@) =~= prev.push(want[k as int]));
        assert(want.take(k + 1) =~= want.take(k as int).push(want[k as int]));
        k = k + 1;
    }
    assert(want.take(want.len() as int) =~= want);
    out
}

/// The memory files to load, in the order of loading: of the names found in
/// the directory, those of Markdown files, ascending.
pub fn load_order(names: &Vec<String>) -> (r: Vec<String>)
    ensures
        texts(r@) == sorted_texts(markdown_from(texts(names@), 0)),
{
    let ghost all = texts(names@);
    let mut kept: Vec<String> = Vec::new();
    let mut i: usize = 0;
    while i < names.len()
        invariant
            i <= names@.len(),
            all == texts(names@),
            markdown_from(all, 0) == texts(kept@) + markdown_from(all, i as int),
        decreases names@.len() - i,
    {
        if markdown_name(names[i].as_str()) {
            let ghost prev = texts(kept@);
            kept.push(names[i].clone());
            assert(texts(kept@) =~= prev.push(all[i as int]));
            assert(prev + (seq![all[i as int]] + markdown_from(all, i + 1)) =~= texts(kept@)
                + markdown_from(all, i + 1));
        }
        i = i + 1;
    }
    assert(texts(kept@) + markdown_from(all, i as int) =~= texts(kept@));
    sort_strings(&kept)
}

/// A memory file: the frontmatter between two lines of dashes, the content
/// behind them.
pub open spec fn framed(frontmatter: Seq<char>, content: Seq<char>) -> Seq<char> {
    "---\n"@ + trim_end(frontmatter) + "\n---\n"@ + content + "\n"@
}

/// The frontmatter and the content of a memory file, where it has both.
pub open spec fn unframed(raw: Seq<char>) -> Option<(Seq<char>, Seq<char>)> {
    if !has_prefix(raw, "---\n"@) {
        None
    } else {
        let rest = raw.skip(4);
        match next_match(rest, "\n---"@, 0) {
            None => None,
            Some(at) => {
                let after = rest.skip(at + 4);
                let body = if after.len() > 0 && after[0] == '\n' {
                    after.skip(1)
                } else {
                    after
                };
                let content = if body.len() > 0 && body.last() == '\n' {
                    body.drop_last()
                } else {
                    body
                };
                Some((rest.take(at), content))
            },
        }
    }
}

/// The text of a memory file with the given frontmatter text and content.
pub fn frame_memory(frontmatter: &str, content: &str) -> (r: String)
    ensures
        r@ == framed(frontmatter@, content@),
{
    let mut out = "---\n".to_owned();
    out.append(trim_end_str(frontmatter).as_str());
    out.append("\n---\n");
    out.append(content);
    out.append("\n");
    out
}

/// The frontmatter of a memory as a YAML table.
pub open spec fn memory_head(m: MemoryView) -> YamlView {
    let text = |s: Seq<char>| YamlView::Text(s);
    let source = seq![
        (text("origin"@), text(m.source.origin)),
        (text("author"@), text(m.source.author.name())),
        (text("timestamp"@), text(m.source.timestamp)),
    ];
    YamlView::Table(
        seq![
            (text("id"@), text(m.id)),
            (text("type"@), text(m.memory_type.name())),
            (text("tags"@), YamlView::List(m.tags.map_values(text))),
        ] + (match m.key {
            Some(k) => seq![(text("key"@), text(k))],
            None => seq![],
        }) + seq![(text("source"@), YamlView::Table(source))] + (match m.ttl {
            Some(n) => seq![(text("ttl"@), YamlView::Int(n as int))],
            None => seq![],
        }),
    )
}

/// Takes a memory file apart into its frontmatter text and its content. A
/// file without the frame is `None`: it is corrupt, and loading passes it over.
pub fn split_memory(raw: &str) -> (r: Option<(String, String)>)
    ensures
        match r {
            Some(p) => unframed(raw@) == Some((p.0@, p.1@)),
            None => unframed(raw@) is None,
        },
{
    let v = chars_of(raw);
    let n: usize = v.len();
    let open = chars_of("---\n");
    let close = chars_of("\n---");
    proof {
        reveal_strlit("---\n");
        reveal_strlit("\n---");
    }
    if !pattern_at(&v, &open, 0) {
        return None;
    }
    let rest = tail(&v, 4);
    match find_pattern(&rest, &close, 0) {
        None => None,
        Some(at) => {
            let m: usize = rest.len();
            assert(at + 4 <= m);
            let ghost after = rest@.skip(at + 4);
            let mut from: usize = at + 4;
            if from < m && rest[from] == '\n' {
                assert(after[0] == '\n');
                from = from + 1;
            }
            let ghost body = rest@.skip(from as int);
            assert(body =~= if after.len() > 0 && after[0] == '\n' {
                after.skip(1)
            } else {
                after
            });
            let mut to: usize = m;
            if from < m && rest[m - 1] == '\n' {
                assert(body.last() == '\n');
                to = m - 1;
            }
            assert(rest@.subrange(from as int, to as int) =~= if body.len() > 0 && body.last()
                == '\n' {
                body.drop_last()
            } else {
                body
            });
            assert(rest@.subrange(0, at as int) =~= rest@.take(at as int));
            Some((string_range(&rest, 0, at), string_range(&rest, from, to)))
        },
    }
}

/// Where the frontmatter of a framed text ends.
pub proof fn lemma_framed(frontmatter: Seq<char>, content: Seq<char>)
    requires
        !holds(trim_end(frontmatter), "\n---"@),
    ensures
        ({
            let raw = framed(frontmatter, content);
            let rest = raw.skip(4);
            let at = trim_end(frontmatter).len() as int;
            &&& has_prefix(raw, "---\n"@)
            &&& next_match(rest, "\n---"@, 0) == Some(at)
            &&& rest.take(at) == trim_end(frontmatter)
            &&& rest.skip(at + 4) == "\n"@ + content + "\n"@
        }),
{
    reveal_strlit("---\n");
    reveal_strlit("\n---");
    reveal_strlit("\n---\n");
    reveal_strlit("\n");
    let fm = trim_end(frontmatter);
    let raw = framed(frontmatter, content);
    let pat = "\n---"@;
    assert(raw.subrange(0, 4) =~= "---\n"@);
    let rest = raw.skip(4);
    assert(rest =~= fm + "\n---\n"@ + content + "\n"@);
    let at = fm.len() as int;
    assert(rest.subrange(at, at + 4) =~= pat);
    assert(matches_at(rest, pat, at));
    lemma_next_match(rest, pat, 0);
    lemma_next_match(fm, pat, 0);
    assert forall|k: int| 0 <= k < at implies !#[trigger] matches_at(rest, pat, k) by {
        if matches_at(rest, pat, k) {
            let w = rest.subrange(k, k + 4);
            if k + 4 <= at {
                assert(fm.subrange(k, k + 4) =~= w);
                assert(matches_at(fm, pat, k));
            } else {
                assert(rest[at] == '\n');
                assert(w[at - k] == rest[at]);
                assert(pat[at - k] == '-');
            }
        }
    }
    assert(next_match(rest, pat, 0) == Some(at));
    assert(rest.skip(at + 4) =~= "\n"@ + content + "\n"@);
    assert(rest.take(at) =~= fm);
}

/// A memory file reads back as it was written: the frontmatter text up to its
/// trailing white space, and the content to the last character. The one
/// demand is that no line of the frontmatter begins with three dashes.
pub proof fn law_memory_file_reads_back(frontmatter: Seq<char>, content: Seq<char>)
    requires
        !holds(trim_end(frontmatter), "\n---"@),
    ensures
        unframed(framed(frontmatter, content)) == Some((trim_end(frontmatter), content)),
{
    reveal_strlit("\n");
    lemma_framed(frontmatter, content);
    let after = "\n"@ + content + "\n"@;
    assert(after.skip(1) =~= content + "\n"@);
    assert((content + "\n"@).drop_last() =~= content);
}

proof fn lemma_words()
    ensures
        is_word_key(YamlView::Text("id"@)),
        is_word_key(YamlView::Text("type"@)),
        is_word_key(YamlView::Text("tags"@)),
        is_word_key(YamlView::Text("key"@)),
        is_word_key(YamlView::Text("source"@)),
        is_word_key(YamlView::Text("ttl"@)),
        is_word_key(YamlView::Text("origin"@)),
        is_word_key(YamlView::Text("author"@)),
        is_word_key(YamlView::Text("timestamp"@)),
{
    reveal_strlit("id");
    reveal_strlit("type");
    reveal_strlit("tags");
    reveal_strlit("key");
    reveal_strlit("source");
    reveal_strlit("ttl");
    reveal_strlit("origin");
    reveal_strlit("author");
    reveal_strlit("timestamp");
}

proof fn lemma_head_is_record(m: MemoryView)
    ensures
        is_record(memory_head(m)),
{
    lemma_words();
    let text = |s: Seq<char>| YamlView::Text(s);
    let source = seq![
        (text("origin"@), text(m.source.origin)),
        (text("author"@), text(m.source.author.name())),
        (text("timestamp"@), text(m.source.timestamp)),
    ];
    assert(is_field(source[0].1) && is_field(source[1].1) && is_field(source[2].1));
    assert(is_field(YamlView::Table(source)));
    assert(is_field(YamlView::List(m.tags.map_values(text))));
    let e = memory_head(m)->Table_0;
    assert forall|i: int| #![trigger e[i]] 0 <= i < e.len() implies is_word_key(e[i].0)
        && is_field(e[i].1) by {
        let at: int = if m.key is Some {
            4
        } else {
            3
        };
        assert(is_field(e[0].1) && is_field(e[1].1) && is_field(e[2].1));
        assert(m.key is Some ==> e[3].0 == text("key"@) && is_field(e[3].1));
        assert(e[0].0 == text("id"@) && e[1].0 == text("type"@) && e[2].0 == text("tags"@));
        assert(e[at].0 == text("source"@) && e[at].1 == YamlView::Table(source));
        assert(m.ttl is Some ==> e[at + 1].0 == text("ttl"@) && is_field(e[at + 1].1));
        assert(i == 0 || i == 1 || i == 2 || i == at || i == 3 || i == at + 1);
    }
}

fn text_entry(key: &str, value: String) -> (r: (Yaml, Yaml))
    ensures
        (r.0@, r.1@) == (YamlView::Text(key@), YamlView::Text(value@)),
{
    (Yaml::Text(key.to_owned()), Yaml::Text(value))
}

fn text_items(v: &Vec<String>) -> (r: Vec<Yaml>)
    ensures
        items_view(r@) == texts(v@).map_values(|s: Seq<char>| YamlView::Text(s)),
{
    let mut out: Vec<Yaml> = Vec::new();
    let mut i: usize = 0;
    while i < v.len()
        invariant
            i <= v@.len(),
            out@.len() == i,
            forall|j: int| 0 <= j < i ==> (#[trigger] out@[j])@ == YamlView::Text(v@[j]@),
        decreases v@.len() - i,
    {
        out.push(Yaml::Text(v[i].clone()));
        i = i + 1;
    }
    assert(items_view(out@) =~= texts(v@).map_values(|s: Seq<char>| YamlView::Text(s)));
    out
}

fn head_of(m: &Memory) -> (r: Yaml)
    ensures
        r@ == memory_head(m@),
{
    let mut source: Vec<(Yaml, Yaml)> = Vec::new();
    source.push(text_entry("origin", m.source.origin.clone()));
    source.push(text_entry("author", m.source.author.as_str().to_owned()));
    source.push(text_entry("timestamp", m.source.timestamp.clone()));
    let mut out: Vec<(Yaml, Yaml)> = Vec::new();
    out.push(text_entry("id", m.id.clone()));
    out.push(text_entry("type", m.memory_type.as_str().to_owned()));
    let tags = Yaml::List(text_items(&m.tags));
    proof {
        lemma_model(tags);
    }
    out.push((Yaml::Text("tags".to_owned()), tags));
    if let Some(k) = &m.key {
        out.push(text_entry("key", k.clone()));
    }
    let source = Yaml::Table(source);
    proof {
        lemma_model(source);
    }
    out.push((Yaml::Text("source".to_owned()), source));
    if let Some(n) = m.ttl {
        out.push((Yaml::Text("ttl".to_owned()), Yaml::Whole(n)));
    }
    let head = Yaml::Table(out);
    proof {
        lemma_model(head);
        let want = memory_head(m@);
        assert(source@->Table_0 =~= (want->Table_0)[if m@.key is Some {
            4int
        } else {
            3int
        }].1->Table_0);
        assert(head@->Table_0 =~= want->Table_0);
    }
    head
}

/// The text of the file of a memory. It reads back as it was written, whatever
/// the memory holds: the text of the frontmatter up to its trailing white space,
/// and the content to the last character.
pub fn memory_text(m: &Memory) -> (r: String)
    ensures
        r@ == framed(yaml_text(memory_head(m@)), m@.content),
        unframed(r@) == Some((trim_end(yaml_text(memory_head(m@))), m@.content)),
{
    let head = render_yaml(&head_of(m));
    proof {
        lemma_head_is_record(m@);
        lemma_trimmed_holds_no_more(head@, "\n---"@);
        law_memory_file_reads_back(head@, m@.content);
    }
    frame_memory(head.as_str(), m.content.as_str())
}

pub proof fn lemma_trimmed_holds_no_more(s: Seq<char>, pat: Seq<char>)
    requires
        !holds(s, pat),
    ensures
        !holds(trim_end(s), pat),
{
    let t = trim_end(s);
    lemma_back_white(s, s.len() as int);
    lemma_next_match(s, pat, 0);
    lemma_next_match(t, pat, 0);
    if let Some(k) = next_match(t, pat, 0) {
        assert(matches_at(t, pat, k));
        assert(s.subrange(k, k + pat.len()) =~= t.subrange(k, k + pat.len()));
        assert(matches_at(s, pat, k));
    }
}

} // verus!
