//! Reading one note, as much of it as asked for.
use crate::error::{error, ErrorView, TacitusError};
use crate::text::{
    chars_of, is_white, join, join_strings, lemma_back_white, lemma_split_join, split_on, string_range, texts, trim_end, trim_end_str,
};
use crate::tokens::{estimate, token_estimate};
use crate::vault::index::{note_at, VaultIndex};
use crate::vault::types::{Heading, HeadingView, NoteView};
use crate::vault::value::{render_yaml, yaml_text};
use vstd::prelude::*;
use vstd::string::*;

verus! {

/// How much of a note to show.
#[derive(Clone, Copy, Debug, PartialEq, Eq, Structural)]
pub enum NoteFormat {
    Outline,
    FrontmatterOnly,
    Full,
}

/// A note as shown.
#[derive(Debug)]
pub struct GetNoteResult {
    pub note_id: String,
    pub title: String,
    pub format: NoteFormat,
    pub content: String,
    pub token_count: usize,
    pub truncated: bool,
}

/// The model of a note as shown.
#[verifier::ext_equal]
pub struct GetNoteView {
    pub note_id: Seq<char>,
    pub title: Seq<char>,
    pub format: NoteFormat,
    pub content: Seq<char>,
    pub token_count: nat,
    pub truncated: bool,
}

impl View for GetNoteResult {
    type V = GetNoteView;

    open spec fn view(&self) -> GetNoteView {
        GetNoteView {
            note_id: self.note_id@,
            title: self.title@,
            format: self.format,
            content: self.content@,
            token_count: self.token_count as nat,
            truncated: self.truncated,
        }
    }
}

/// `n` blanks.
pub open spec fn blanks(n: nat) -> Seq<char> {
    Seq::new(n, |i: int| ' ')
}

/// One line of an outline: two blanks for each level below the first.
pub open spec fn outline_line(h: HeadingView) -> Seq<char> {
    blanks((2 * (h.level - 1)) as nat) + "- "@ + h.text
}

/// The headings of a note as a list.
pub open spec fn outline(hs: Seq<HeadingView>) -> Seq<char> {
    join(hs.map_values(|h: HeadingView| outline_line(h)), "\n"@)
}

/// The text of a note in a format.
pub open spec fn shown(n: NoteView, format: NoteFormat) -> Seq<char> {
    match format {
        NoteFormat::Outline => outline(n.headings),
        NoteFormat::FrontmatterOnly => trim_end(yaml_text(n.frontmatter)),
        NoteFormat::Full => n.content,
    }
}

/// The last position before `j` that holds a blank, or -1.
pub open spec fn last_blank(s: Seq<char>, j: int) -> int
    decreases j,
{
    if j <= 0 || j > s.len() {
        -1
    } else if s[j - 1] == ' ' {
        j - 1
    } else {
        last_blank(s, j - 1)
    }
}

/// `s` cut to `max` characters, at the last blank where there is one behind
/// the first character.
pub open spec fn cut_to(s: Seq<char>, max: int) -> Seq<char> {
    let cut = s.take(max);
    let at = last_blank(cut, cut.len() as int);
    if at > 0 {
        trim_end(cut.take(at))
    } else {
        trim_end(cut)
    }
}

/// What `get_note` shows of a note.
pub open spec fn note_shown(n: NoteView, format: NoteFormat, max_tokens: Option<usize>) -> GetNoteView {
    let text = shown(n, format);
    let over = match max_tokens {
        Some(max) => text.len() > max * 4,
        None => false,
    };
    let content = if over {
        cut_to(text, max_tokens->0 * 4)
    } else {
        text
    };
    GetNoteView {
        note_id: n.id,
        title: n.title,
        format,
        content,
        token_count: token_estimate(content),
        truncated: over,
    }
}

/// The error for an id that no note has.
pub open spec fn no_such_note(id: Seq<char>, suggestion: Seq<char>) -> ErrorView {
    error("NOTE_NOT_FOUND"@, "No note with id \""@ + id + "\"."@, suggestion)
}

/// The error for an id that no note has.
pub(crate) fn missing_note(id: &str, suggestion: &str) -> (e: TacitusError)
    ensures
        e@ == no_such_note(id@, suggestion@),
{
    let mut reason = "No note with id \"".to_owned();
    reason.append(id);
    reason.append("\".");
    TacitusError::new("NOTE_NOT_FOUND", reason.as_str(), suggestion)
}

fn outline_of(headings: &Vec<Heading>) -> (r: String)
    requires
        forall|k: int| 0 <= k < headings@.len() ==> (#[trigger] headings@[k]).level >= 1,
    ensures
        r@ == outline(crate::vault::types::headings_view(headings@)),
{
    let ghost hs = crate::vault::types::headings_view(headings@);
    let ghost want = hs.map_values(|h: HeadingView| outline_line(h));
    let mut parts: Vec<String> = Vec::new();
    let mut i: usize = 0;
    while i < headings.len()
        invariant
            i <= headings@.len(),
            hs == crate::vault::types::headings_view(headings@),
            want == hs.map_values(|h: HeadingView| outline_line(h)),
            forall|k: int| 0 <= k < headings@.len() ==> (#[trigger] headings@[k]).level >= 1,
            texts(parts@) == want.take(i as int),
        decreases headings@.len() - i,
    {
        let level: usize = headings[i].level;
        let mut line = String::new();
        let mut k: usize = 1;
        assert(line@ =~= blanks(0));
        while k < level
            invariant
                1 <= k <= level,
                line@ == blanks((2 * (k - 1)) as nat),
            decreases level - k,
        {
            line.push(' ');
            line.push(' ');
            k = k + 1;
            assert(line@ =~= blanks((2 * (k - 1)) as nat));
        }
        line.append("- ");
        line.append(headings[i].text.as_str());
        let ghost prev = texts(parts@);
        assert(line@ =~= outline_line(hs[i as int]));
        parts.push(line);
        assert(texts(parts@) =~= prev.push(want[i as int]));
        assert(want.take(i + 1) =~= want.take(i as int).push(want[i as int]));
        i = i + 1;
    }
    assert(want.take(want.len() as int) =~= want);
    join_strings(&parts, "\n")
}

fn cut_text(s: &str, max: usize) -> (r: String)
    requires
        s@.len() > max,
    ensures
        r@ == cut_to(s@, max as int),
        r@.len() <= max,
{
    let v = chars_of(s);
    let mut at: usize = max;
    let ghost cut = s@.take(max as int);
    while at > 0 && v[at - 1] != ' '
        invariant
            at <= max < v@.len(),
            v@ == s@,
            cut == s@.take(max as int),
            last_blank(cut, max as int) == last_blank(cut, at as int),
        decreases at,
    {
        assert(cut[at - 1] == v@[at - 1]);
        at = at - 1;
    }
    proof {
        if at > 0 {
            assert(cut[at - 1] == v@[at - 1]);
        }
    }
    let kept: String = if at > 1 {
        assert(last_blank(cut, max as int) == at - 1);
        assert(v@.subrange(0, at - 1) =~= cut.take(at - 1));
        string_range(&v, 0, at - 1)
    } else {
        assert(v@.subrange(0, max as int) =~= cut);
        string_range(&v, 0, max)
    };
    proof {
        lemma_back_white(kept@, kept@.len() as int);
    }
    trim_end_str(kept.as_str())
}

/// Shows a note: an outline (its headings), its frontmatter, or all of it,
/// under an optional ceiling of tokens.
pub fn get_note(
    index: &VaultIndex,
    id: &str,
    format: NoteFormat,
    max_tokens: Option<usize>,
) -> (r: Result<GetNoteResult, TacitusError>)
    ensures
        match r {
            Ok(g) => note_at(index@, id@) matches Some(n) && g@ == note_shown(n, format, max_tokens),
            Err(e) => note_at(index@, id@) is None && e@ == no_such_note(
                id@,
                "Use search or list_notes to discover valid note ids."@,
            ),
        },
        r matches Ok(g) ==> (max_tokens matches Some(max) ==> g.token_count <= max),
{
    let note = match index.get(id) {
        Some(n) => n,
        None => {
            return Err(missing_note(id, "Use search or list_notes to discover valid note ids."));
        },
    };
    let text: String = match format {
        NoteFormat::Outline => {
            assert forall|k: int| 0 <= k < note.headings@.len() implies (
            #[trigger] note.headings@[k]).level >= 1 by {
                assert(note@.headings[k].level >= 1);
            }
            outline_of(&note.headings)
        },
        NoteFormat::FrontmatterOnly => {
            let y = render_yaml(&note.frontmatter);
            trim_end_str(y.as_str())
        },
        NoteFormat::Full => note.content.clone(),
    };
    let mut truncated: bool = false;
    let mut content: String = text;
    let length: usize = content.as_str().unicode_len();
    if let Some(max) = max_tokens {
        if max <= usize::MAX / 4 && length > max * 4 {
            content = cut_text(content.as_str(), max * 4);
            truncated = true;
        }
    }
    let token_count: usize = estimate(content.as_str());
    Ok(
        GetNoteResult {
            note_id: note.id.clone(),
            title: note.title.clone(),
            format,
            content,
            token_count,
            truncated,
        },
    )
}

proof fn lemma_last_blank(s: Seq<char>, j: int)
    requires
        0 <= j <= s.len(),
    ensures
        -1 <= last_blank(s, j) < j || j == 0 && last_blank(s, j) == -1,
    decreases j,
{
    if j > 0 && s[j - 1] != ' ' {
        lemma_last_blank(s, j - 1);
    }
}

/// A note is shown under its ceiling: what is shown is never estimated at more
/// tokens than asked for, and is cut only where the whole would be.
pub proof fn law_shown_note_keeps_its_ceiling(n: NoteView, format: NoteFormat, max: usize)
    ensures
        note_shown(n, format, Some(max)).token_count <= max,
        note_shown(n, format, Some(max)).truncated <==> token_estimate(shown(n, format)) > max,
        !note_shown(n, format, Some(max)).truncated ==> note_shown(n, format, Some(max)).content
            == shown(n, format),
        note_shown(n, format, None).content == shown(n, format),
{
    let text = shown(n, format);
    if text.len() > max * 4 {
        let cut = text.take(max * 4);
        let at = last_blank(cut, cut.len() as int);
        lemma_last_blank(cut, cut.len() as int);
        lemma_back_white(cut, cut.len() as int);
        if at > 0 {
            lemma_back_white(cut.take(at), at);
        }
    }
}

/// What is cut off is the end: a truncated note shows the start of its text, cut at
/// the last blank `at` within the ceiling, or at the ceiling where `at` is none. What
/// white space that leaves at the end goes too.
pub proof fn law_a_cut_note_shows_its_start(n: NoteView, format: NoteFormat, max: usize, at: int)
    requires
        note_shown(n, format, Some(max)).truncated,
        0 <= at < 4 * max,
        at > 0 ==> shown(n, format)[at] == ' ',
        forall|k: int| at < k < 4 * max ==> #[trigger] shown(n, format)[k] != ' ',
    ensures
        ({
            let text = shown(n, format);
            let seen = note_shown(n, format, Some(max)).content;
            let end: int = if at > 0 {
                at
            } else {
                4 * max
            };
            &&& seen.len() <= end <= text.len()
            &&& seen == text.take(seen.len() as int)
            &&& seen.len() > 0 ==> !is_white(seen[seen.len() - 1])
            &&& forall|k: int| seen.len() <= k < end ==> is_white(#[trigger] text[k])
        }),
{
    let text = shown(n, format);
    let m: int = max * 4;
    let cut = text.take(m);
    let last = last_blank(cut, m);
    lemma_last_blank_is(cut, m);
    let end: int = if at > 0 {
        at
    } else {
        m
    };
    assert(last > 0 ==> last == at) by {
        if last > 0 {
            assert(cut[last] == ' ');
            assert(text[last] == ' ');
            if last < at {
                assert(cut[at] == ' ');
            }
        }
    }
    assert(at > 0 ==> last > 0) by {
        if at > 0 {
            assert(cut[at] == ' ');
        }
    }
    let kept = cut.take(end);
    assert(kept =~= text.take(end));
    assert(cut.take(m) =~= cut);
    lemma_back_white(kept, end);
    let seen = note_shown(n, format, Some(max)).content;
    assert(seen == trim_end(kept));
    assert(seen =~= text.take(seen.len() as int));
    assert forall|k: int| seen.len() <= k < end implies is_white(#[trigger] text[k]) by {
        assert(kept[k] == text[k]);
    }
}

proof fn lemma_last_blank_is(s: Seq<char>, j: int)
    requires
        0 <= j <= s.len(),
    ensures
        -1 <= last_blank(s, j) < j || j == 0,
        last_blank(s, j) >= 0 ==> s[last_blank(s, j)] == ' ',
        forall|k: int| last_blank(s, j) < k < j && 0 <= k ==> #[trigger] s[k] != ' ',
    decreases j,
{
    if j > 0 && s[j - 1] != ' ' {
        lemma_last_blank_is(s, j - 1);
    }
}

/// The formats of a note: its whole content, its frontmatter as YAML, or one line for
/// each of its headings, in order, indented by two blanks for each level below the
/// first. Whatever is shown names its note, its format and its cost.
pub proof fn law_a_note_is_shown_as_asked(n: NoteView, format: NoteFormat, max_tokens: Option<usize>, k: int)
    requires
        0 <= k < n.headings.len(),
        forall|i: int| 0 <= i < n.headings.len() ==> (#[trigger] n.headings[i]).level >= 1,
        forall|i: int, j: int|
            0 <= i < n.headings.len() && 0 <= j < n.headings[i].text.len()
                ==> #[trigger] n.headings[i].text[j] != '\n',
    ensures
        ({
            let r = note_shown(n, format, max_tokens);
            &&& r.note_id == n.id
            &&& r.title == n.title
            &&& r.format == format
            &&& r.content.len() <= 4 * r.token_count < r.content.len() + 4
        }),
        note_shown(n, NoteFormat::Full, None).content == n.content,
        ({
            let ls = split_on(note_shown(n, NoteFormat::Outline, None).content, '\n');
            let h = n.headings[k];
            let indent: int = 2 * (h.level - 1);
            &&& ls.len() == n.headings.len()
            &&& ls[k].len() == indent + 2 + h.text.len()
            &&& forall|i: int| 0 <= i < indent ==> #[trigger] ls[k][i] == ' '
            &&& ls[k][indent] == '-' && ls[k][indent + 1] == ' '
            &&& ls[k].skip(indent + 2) == h.text
        }),
{
    reveal_strlit("- ");
    reveal_strlit("\n");
    let parts = n.headings.map_values(|h: HeadingView| outline_line(h));
    assert forall|i: int, j: int| 0 <= i < parts.len() && 0 <= j < parts[i].len() implies #[trigger] parts[i][j]
        != '\n' by {
        let h = n.headings[i];
        let indent: int = 2 * (h.level - 1);
        assert(parts[i] == outline_line(h));
        if j >= indent + 2 {
            assert(parts[i][j] == h.text[j - indent - 2]);
        }
    }
    assert("\n"@ =~= seq!['\n']);
    lemma_split_join(parts, '\n');
    let h = n.headings[k];
    let indent: int = 2 * (h.level - 1);
    assert(parts[k] == outline_line(h));
    assert(parts[k].skip(indent + 2) =~= h.text);
}

} // verus!
