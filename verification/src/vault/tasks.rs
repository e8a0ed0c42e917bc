//! Tasks as typed entities: checklist lines anywhere in the vault, with their
//! status, due date and inline tags.
//!
//! Toggling is a pure function on a note's content. The task text that the
//! caller last saw guards it: if the line changed since, the answer is a
//! `CONFLICT`, never a flip of the wrong task.
use crate::error::{error, ErrorView, TacitusError};
use crate::memory::recall::budget_of;
use crate::numbers::{dec, is_digit, render_u64};
use crate::order::{
    before, fit, fits, law_fit_keeps_budget, law_stable_order, lemma_all_fit, lemma_before_asym,
    lemma_before_total, lemma_before_trans, lemma_stable_order_has, lemma_stable_order_range,
    lemma_total_is_cost, positions, sort_positions, stable_order, str_before, total, weak_order,
};
use crate::text::{
    back_white, chars_of, copy_opt, copy_strings, debug_text, has_string, is_white, join,
    join_strings, lemma_back_white, lemma_joined_lines, lemma_lines, lemma_skip_white, lines,
    lines_of, matches_at, opt_text, pattern_at, quoted, reads_as, skip_white, str_eq, string_of,
    string_range, texts, trim_end, trim_end_str, white_end,
};
use crate::tokens::{estimate, token_estimate};
use crate::vault::index::VaultIndex;
use crate::vault::parse::{inline_tags, inline_tags_from};
use crate::vault::search::{first_of, lemma_fit_len};
use crate::vault::types::NoteView;
use vstd::prelude::*;
use vstd::string::*;

verus! {

/// One task.
#[derive(Debug)]
pub struct Task {
    pub note_id: String,
    /// Line number from zero within the note's content (frontmatter excluded).
    pub line: usize,
    /// The text after the checkbox, metadata included.
    pub text: String,
    pub done: bool,
    /// The date of `due:YYYY-MM-DD` or of a calendar sign and a date, if there is one.
    pub due: Option<String>,
    pub tags: Vec<String>,
    pub token_count: usize,
}

/// Which tasks to list.
#[derive(Debug)]
pub struct TaskFilter {
    /// `Some(false)` for open tasks, `Some(true)` for done ones, `None` for all.
    pub done: Option<bool>,
    /// Only tasks with a due date strictly before this date.
    pub due_before: Option<String>,
    /// Only tasks with a due date on or after this date.
    pub due_after: Option<String>,
    pub tag: Option<String>,
    pub note_id: Option<String>,
    /// The most tasks (100 where absent).
    pub limit: Option<usize>,
    /// Hard token ceiling across the tasks.
    pub token_budget: Option<usize>,
}

impl Default for TaskFilter {
    fn default() -> (r: Self)
        ensures
            r@ == (TaskFilterView {
                done: None,
                due_before: None,
                due_after: None,
                tag: None,
                note_id: None,
                limit: None,
                token_budget: None,
            }),
    {
        TaskFilter {
            done: None,
            due_before: None,
            due_after: None,
            tag: None,
            note_id: None,
            limit: None,
            token_budget: None,
        }
    }
}

/// The model of a task.
#[verifier::ext_equal]
pub struct TaskView {
    pub note_id: Seq<char>,
    pub line: nat,
    pub text: Seq<char>,
    pub done: bool,
    pub due: Option<Seq<char>>,
    pub tags: Seq<Seq<char>>,
    pub token_count: nat,
}

/// The model of a filter.
#[verifier::ext_equal]
pub struct TaskFilterView {
    pub done: Option<bool>,
    pub due_before: Option<Seq<char>>,
    pub due_after: Option<Seq<char>>,
    pub tag: Option<Seq<char>>,
    pub note_id: Option<Seq<char>>,
    pub limit: Option<usize>,
    pub token_budget: Option<usize>,
}

impl View for Task {
    type V = TaskView;

    open spec fn view(&self) -> TaskView {
        TaskView {
            note_id: self.note_id@,
            line: self.line as nat,
            text: self.text@,
            done: self.done,
            due: opt_text(self.due),
            tags: texts(self.tags@),
            token_count: self.token_count as nat,
        }
    }
}

impl View for TaskFilter {
    type V = TaskFilterView;

    open spec fn view(&self) -> TaskFilterView {
        TaskFilterView {
            done: self.done,
            due_before: opt_text(self.due_before),
            due_after: opt_text(self.due_after),
            tag: opt_text(self.tag),
            note_id: opt_text(self.note_id),
            limit: self.limit,
            token_budget: self.token_budget,
        }
    }
}

pub open spec fn tasks_view(v: Seq<Task>) -> Seq<TaskView> {
    v.map_values(|t: Task| t@)
}

impl Clone for Task {
    fn clone(&self) -> (r: Self)
        ensures
            r@ == self@,
    {
        Task {
            note_id: self.note_id.clone(),
            line: self.line,
            text: self.text.clone(),
            done: self.done,
            due: copy_opt(&self.due),
            tags: copy_strings(&self.tags),
            token_count: self.token_count,
        }
    }
}

// ---------------------------------------------------------------------------
// One line
// ---------------------------------------------------------------------------

/// Whether `regex` takes a character for a decimal digit (`\d`, the Unicode
/// class of decimal numbers).
pub uninterp spec fn decimal_digit(c: char) -> bool;

/// `regex::Regex::is_match` of `^\d$` on one character. Of the ASCII
/// characters it takes `0` to `9`.
#[verifier::external_body]
fn regex_digit(c: char) -> (r: bool)
    ensures
        r == decimal_digit(c),
        (c as int) < 128 ==> r == is_digit(c),
{
    regex::Regex::new(r"^\d$").is_ok_and(|re| re.is_match(&c.to_string()))
}

/// Whether a due date stands at `q`: four digits, a dash, two digits, a dash,
/// two digits.
pub open spec fn date_at(s: Seq<char>, q: int) -> bool {
    &&& 0 <= q && q + 10 <= s.len()
    &&& decimal_digit(s[q]) && decimal_digit(s[q + 1]) && decimal_digit(s[q + 2]) && decimal_digit(
        s[q + 3],
    )
    &&& s[q + 4] == '-'
    &&& decimal_digit(s[q + 5]) && decimal_digit(s[q + 6])
    &&& s[q + 7] == '-'
    &&& decimal_digit(s[q + 8]) && decimal_digit(s[q + 9])
}

/// Where the date starts that is announced at `p`: by `due:` right before it,
/// or by a calendar sign and white space.
pub open spec fn due_start(s: Seq<char>, p: int) -> Option<int> {
    if matches_at(s, "due:"@, p) && date_at(s, p + 4) {
        Some(p + 4)
    } else if 0 <= p < s.len() && s[p] == '\u{1F4C5}' && date_at(s, skip_white(s, p + 1)) {
        Some(skip_white(s, p + 1))
    } else {
        None
    }
}

/// The first announced date of `s[p..]`.
pub open spec fn due_from(s: Seq<char>, p: int) -> Option<Seq<char>>
    decreases s.len() - p,
{
    if p < 0 || p >= s.len() {
        None
    } else {
        match due_start(s, p) {
            Some(q) => Some(s.subrange(q, q + 10)),
            None => due_from(s, p + 1),
        }
    }
}

/// Where the mark of the checkbox stands in a task line: behind white space, a
/// dash or a star, a blank and a bracket; a bracket and a blank follow it.
pub open spec fn mark_at(line: Seq<char>) -> Option<int> {
    let a = skip_white(line, 0);
    if a + 6 <= line.len() && (line[a] == '-' || line[a] == '*') && line[a + 1] == ' ' && line[a
        + 2] == '[' && (line[a + 3] == ' ' || line[a + 3] == 'x' || line[a + 3] == 'X') && line[a
        + 4] == ']' && line[a + 5] == ' ' && (forall|k: int|
        a + 6 <= k < line.len() ==> #[trigger] line[k] != '\n') {
        Some(a + 3)
    } else {
        None
    }
}

/// The task that a line is.
pub open spec fn task_of(note_id: Seq<char>, number: nat, line: Seq<char>) -> Option<TaskView> {
    match mark_at(line) {
        Some(m) => {
            let text = trim_end(line.skip(m + 3));
            Some(
                TaskView {
                    note_id,
                    line: number,
                    text,
                    done: line[m] != ' ',
                    due: due_from(text, 0),
                    tags: inline_tags_from(text, 0),
                    token_count: token_estimate(text) + 8,
                },
            )
        },
        None => None,
    }
}

fn is_date(v: &Vec<char>, q: usize) -> (r: bool)
    requires
        q <= v@.len(),
    ensures
        r == date_at(v@, q as int),
{
    v.len() - q >= 10 && v[q + 4] == '-' && v[q + 7] == '-' && regex_digit(v[q]) && regex_digit(
        v[q + 1],
    ) && regex_digit(v[q + 2]) && regex_digit(v[q + 3]) && regex_digit(v[q + 5]) && regex_digit(
        v[q + 6],
    ) && regex_digit(v[q + 8]) && regex_digit(v[q + 9])
}

fn find_due(text: &str) -> (r: Option<String>)
    ensures
        opt_text(r) == due_from(text@, 0),
{
    let v = chars_of(text);
    let n: usize = v.len();
    let word = chars_of("due:");
    proof {
        reveal_strlit("due:");
    }
    let mut p: usize = 0;
    while p < n
        invariant
            n == v@.len(),
            v@ == text@,
            word@ == "due:"@,
            word@.len() == 4,
            p <= n,
            due_from(text@, 0) == due_from(text@, p as int),
        decreases n - p,
    {
        if pattern_at(&v, &word, p) && is_date(&v, p + 4) {
            assert(due_start(text@, p as int) == Some(p + 4));
            return Some(string_range(&v, p + 4, p + 14));
        }
        if v[p] == '\u{1F4C5}' {
            let q: usize = white_end(&v, p + 1);
            if is_date(&v, q) {
                assert(due_start(text@, p as int) == Some(q as int));
                return Some(string_range(&v, q, q + 10));
            }
        }
        p = p + 1;
    }
    None
}

fn find_mark(v: &Vec<char>) -> (r: Option<usize>)
    ensures
        match r {
            Some(m) => mark_at(v@) == Some(m as int) && m + 3 <= v@.len(),
            None => mark_at(v@) is None,
        },
{
    let n: usize = v.len();
    let a: usize = white_end(v, 0);
    if n - a < 6 {
        return None;
    }
    if !((v[a] == '-' || v[a] == '*') && v[a + 1] == ' ' && v[a + 2] == '[' && (v[a + 3] == ' '
        || v[a + 3] == 'x' || v[a + 3] == 'X') && v[a + 4] == ']' && v[a + 5] == ' ') {
        return None;
    }
    let mut k: usize = a + 6;
    while k < n
        invariant
            n == v@.len(),
            a + 6 <= k <= n,
            a == skip_white(v@, 0),
            forall|j: int| a + 6 <= j < k ==> #[trigger] v@[j] != '\n',
        decreases n - k,
    {
        if v[k] == '\n' {
            return None;
        }
        k = k + 1;
    }
    Some(a + 3)
}

/// The task that a content line is, if it is a checklist line.
pub fn parse_task_line(note_id: &str, line_idx: usize, line: &str) -> (r: Option<Task>)
    ensures
        match r {
            Some(t) => task_of(note_id@, line_idx as nat, line@) == Some(t@),
            None => task_of(note_id@, line_idx as nat, line@) is None,
        },
{
    let v = chars_of(line);
    let m: usize = match find_mark(&v) {
        Some(m) => m,
        None => {
            return None;
        },
    };
    let done: bool = v[m] != ' ';
    let rest = string_range(&v, m + 3, v.len());
    assert(rest@ =~= line@.skip(m + 3));
    let text = trim_end_str(rest.as_str());
    let due = find_due(text.as_str());
    let tags = inline_tags(text.as_str());
    let cost: usize = estimate(text.as_str());
    assert(cost <= text@.len() / 4 + 1);
    let len: usize = text.as_str().unicode_len();
    Some(
        Task {
            note_id: note_id.to_owned(),
            line: line_idx,
            text,
            done,
            due,
            tags,
            token_count: cost + 8,
        },
    )
}

// ---------------------------------------------------------------------------
// Notes
// ---------------------------------------------------------------------------

/// The tasks among the lines from `i` on.
pub open spec fn tasks_from(note_id: Seq<char>, ls: Seq<Seq<char>>, i: int) -> Seq<TaskView>
    decreases ls.len() - i,
{
    if i < 0 || i >= ls.len() {
        seq![]
    } else {
        match task_of(note_id, i as nat, ls[i]) {
            Some(t) => seq![t] + tasks_from(note_id, ls, i + 1),
            None => tasks_from(note_id, ls, i + 1),
        }
    }
}

/// The tasks of a note's content, in line order.
pub open spec fn tasks_in(note_id: Seq<char>, content: Seq<char>) -> Seq<TaskView> {
    tasks_from(note_id, lines(content), 0)
}

/// All tasks in a note's content, in line order.
pub fn note_tasks(note_id: &str, content: &str) -> (r: Vec<Task>)
    ensures
        tasks_view(r@) == tasks_in(note_id@, content@),
{
    let ls = lines_of(content);
    let ghost all = texts(ls@);
    let mut out: Vec<Task> = Vec::new();
    let mut i: usize = 0;
    while i < ls.len()
        invariant
            i <= ls@.len(),
            all == texts(ls@),
            tasks_from(note_id@, all, 0) == tasks_view(out@) + tasks_from(note_id@, all, i as int),
        decreases ls@.len() - i,
    {
        match parse_task_line(note_id, i, ls[i].as_str()) {
            Some(t) => {
                let ghost prev = tasks_view(out@);
                let ghost tv = t@;
                out.push(t);
                assert(tasks_view(out@) =~= prev.push(tv));
                assert(prev + (seq![tv] + tasks_from(note_id@, all, i + 1)) =~= tasks_view(out@)
                    + tasks_from(note_id@, all, i + 1));
            },
            None => {},
        }
        i = i + 1;
    }
    assert(tasks_view(out@) + tasks_from(note_id@, all, i as int) =~= tasks_view(out@));
    out
}

/// The tasks of the notes from `i` on, of one note where an id is wanted.
pub open spec fn vault_tasks_from(
    s: Seq<NoteView>,
    wanted: Option<Seq<char>>,
    i: int,
) -> Seq<TaskView>
    decreases s.len() - i,
{
    if i < 0 || i >= s.len() {
        seq![]
    } else if wanted is None || wanted == Some(s[i].id) {
        tasks_in(s[i].id, s[i].content) + vault_tasks_from(s, wanted, i + 1)
    } else {
        vault_tasks_from(s, wanted, i + 1)
    }
}

/// Whether a task passes a filter.
pub open spec fn passes(t: TaskView, f: TaskFilterView) -> bool {
    &&& f.done matches Some(d) ==> t.done == d
    &&& f.due_before matches Some(cut) ==> (t.due matches Some(due) && before(due, cut))
    &&& f.due_after matches Some(cut) ==> (t.due matches Some(due) && !before(due, cut))
    &&& f.tag matches Some(tag) ==> t.tags.contains(tag)
}

/// The tasks from `i` on that pass a filter.
pub open spec fn passing_from(ts: Seq<TaskView>, f: TaskFilterView, i: int) -> Seq<TaskView>
    decreases ts.len() - i,
{
    if i < 0 || i >= ts.len() {
        seq![]
    } else if passes(ts[i], f) {
        seq![ts[i]] + passing_from(ts, f, i + 1)
    } else {
        passing_from(ts, f, i + 1)
    }
}

/// The order of tasks: by due date, those without one last, then by note, then
/// by line.
pub open spec fn sooner(a: TaskView, b: TaskView) -> bool {
    if a.due != b.due {
        match a.due {
            Some(x) => match b.due {
                Some(y) => before(x, y),
                None => true,
            },
            None => false,
        }
    } else if a.note_id != b.note_id {
        before(a.note_id, b.note_id)
    } else {
        a.line < b.line
    }
}

/// The order of tasks at positions.
pub open spec fn by_due(ts: Seq<TaskView>) -> spec_fn(int, int) -> bool {
    |a: int, b: int| sooner(ts[a], ts[b])
}

/// Tasks in order.
pub open spec fn ordered_tasks(ts: Seq<TaskView>) -> Seq<TaskView> {
    stable_order(ts.len(), by_due(ts)).map_values(|k: int| ts[k])
}

/// The limit that an absent limit stands for.
pub open spec fn task_limit(l: Option<usize>) -> Option<usize> {
    match l {
        Some(n) => Some(n),
        None => Some(100),
    }
}

/// The token costs of tasks.
pub open spec fn task_costs(ts: Seq<TaskView>) -> Seq<nat> {
    ts.map_values(|t: TaskView| t.token_count)
}

/// The listed tasks: of those that pass, the first in order, as far as the
/// budget goes.
pub open spec fn listed(s: Seq<NoteView>, f: TaskFilterView) -> Seq<TaskView> {
    let found = passing_from(vault_tasks_from(s, f.note_id, 0), f, 0);
    let top = first_of(ordered_tasks(found), task_limit(f.limit));
    fit(task_costs(top), budget_of(f.token_budget), 0, 0).map_values(|k: int| top[k])
}

fn does_pass(t: &Task, f: &TaskFilter) -> (r: bool)
    ensures
        r == passes(t@, f@),
{
    if let Some(d) = f.done {
        if t.done != d {
            return false;
        }
    }
    if let Some(cut) = &f.due_before {
        match &t.due {
            Some(due) => {
                if !str_before(due.as_str(), cut.as_str()) {
                    return false;
                }
            },
            None => {
                return false;
            },
        }
    }
    if let Some(cut) = &f.due_after {
        match &t.due {
            Some(due) => {
                if str_before(due.as_str(), cut.as_str()) {
                    return false;
                }
            },
            None => {
                return false;
            },
        }
    }
    if let Some(tag) = &f.tag {
        if !has_string(&t.tags, tag.as_str()) {
            return false;
        }
    }
    true
}

fn is_sooner(a: &Task, b: &Task) -> (r: bool)
    ensures
        r == sooner(a@, b@),
{
    match (&a.due, &b.due) {
        (Some(x), Some(y)) => {
            if !str_eq(x.as_str(), y.as_str()) {
                return str_before(x.as_str(), y.as_str());
            }
        },
        (Some(_), None) => {
            return true;
        },
        (None, Some(_)) => {
            return false;
        },
        (None, None) => {},
    }
    if !str_eq(a.note_id.as_str(), b.note_id.as_str()) {
        return str_before(a.note_id.as_str(), b.note_id.as_str());
    }
    a.line < b.line
}

fn collect_tasks(index: &VaultIndex, filter: &TaskFilter) -> (r: Vec<Task>)
    ensures
        tasks_view(r@) == passing_from(vault_tasks_from(index@, filter@.note_id, 0), filter@, 0),
{
    let ghost s = index@;
    let ghost f = filter@;
    let all = index.all();
    let mut every: Vec<Task> = Vec::new();
    let mut i: usize = 0;
    assert(tasks_view(every@) =~= seq![]);
    while i < all.len()
        invariant
            i <= all@.len(),
            s == index@,
            f == filter@,
            all@.len() == s.len(),
            forall|k: int| 0 <= k < all@.len() ==> (#[trigger] all@[k])@ == s[k],
            vault_tasks_from(s, f.note_id, 0) == tasks_view(every@) + vault_tasks_from(
                s,
                f.note_id,
                i as int,
            ),
        decreases all@.len() - i,
    {
        let wanted: bool = match &filter.note_id {
            Some(id) => str_eq(id.as_str(), all[i].id.as_str()),
            None => true,
        };
        assert(all@[i as int]@ == s[i as int]);
        if wanted {
            let mut some = note_tasks(all[i].id.as_str(), all[i].content.as_str());
            let ghost prev = every@;
            let ghost new = some@;
            every.append(&mut some);
            assert(tasks_view(every@) =~= tasks_view(prev) + tasks_view(new));
            assert(tasks_view(prev) + (tasks_view(new) + vault_tasks_from(s, f.note_id, i + 1))
                =~= tasks_view(every@) + vault_tasks_from(s, f.note_id, i + 1));
        }
        i = i + 1;
    }
    assert(tasks_view(every@) + vault_tasks_from(s, f.note_id, i as int) =~= tasks_view(every@));
    let ghost ts = tasks_view(every@);
    let mut out: Vec<Task> = Vec::new();
    let mut k: usize = 0;
    while k < every.len()
        invariant
            k <= every@.len(),
            ts == tasks_view(every@),
            f == filter@,
            passing_from(ts, f, 0) == tasks_view(out@) + passing_from(ts, f, k as int),
        decreases every@.len() - k,
    {
        assert(ts[k as int] == every@[k as int]@);
        if does_pass(&every[k], filter) {
            let ghost prev = tasks_view(out@);
            out.push(every[k].clone());
            assert(tasks_view(out@) =~= prev.push(ts[k as int]));
            assert(prev + (seq![ts[k as int]] + passing_from(ts, f, k + 1)) =~= tasks_view(out@)
                + passing_from(ts, f, k + 1));
        }
        k = k + 1;
    }
    assert(tasks_view(out@) + passing_from(ts, f, k as int) =~= tasks_view(out@));
    out
}

/// Queries the vault's tasks. Sorted by due date (missing last), then note,
/// then line; capped by `limit` and `token_budget`.
pub fn list_tasks(index: &VaultIndex, filter: &TaskFilter) -> (r: Vec<Task>)
    ensures
        tasks_view(r@) == listed(index@, filter@),
{
    let found = collect_tasks(index, filter);
    let ghost ts = tasks_view(found@);
    let n: usize = found.len();
    let less = |a: usize, b: usize| -> (r: bool)
        requires
            a < n,
            b < n,
            n == found@.len(),
        ensures
            r == by_due(tasks_view(found@))(a as int, b as int),
        { is_sooner(&found[a], &found[b]) };
    let order = sort_positions(n, less, Ghost(by_due(ts)));
    let ghost ordered = ordered_tasks(ts);
    let limit: usize = match filter.limit {
        Some(l) => l,
        None => 100,
    };
    let keep: usize = if limit < n {
        limit
    } else {
        n
    };
    let ghost top = first_of(ordered, task_limit(filter@.limit));
    assert(top =~= ordered.take(keep as int));
    let budget: usize = match filter.token_budget {
        Some(b) => b,
        None => usize::MAX,
    };
    let ghost costs = task_costs(top);
    let ghost chosen = fit(costs, budget as nat, 0, 0);
    let ghost mut picked: Seq<int> = seq![];
    let mut out: Vec<Task> = Vec::new();
    let mut used: usize = 0;
    let mut k: usize = 0;
    assert(tasks_view(out@) =~= seq![]);
    while k < keep
        invariant
            k <= keep <= n,
            n == found@.len(),
            used <= budget,
            ts == tasks_view(found@),
            order@.len() == n,
            positions(order@) == stable_order(ts.len(), by_due(ts)),
            forall|a: int| 0 <= a < order@.len() ==> #[trigger] order@[a] < n,
            ordered == ordered_tasks(ts),
            top == ordered.take(keep as int),
            costs == task_costs(top),
            chosen == fit(costs, budget as nat, 0, 0),
            chosen == picked + fit(costs, budget as nat, used as nat, k as int),
            tasks_view(out@) == picked.map_values(|p: int| top[p]),
        decreases keep - k,
    {
        let at: usize = order[k];
        assert(positions(order@)[k as int] == at as int);
        assert(ts[at as int] == found@[at as int]@);
        assert(top[k as int] == found@[at as int]@);
        let cost: usize = found[at].token_count;
        if fits(used, cost, budget) {
            let ghost prev = tasks_view(out@);
            let ghost was = picked;
            out.push(found[at].clone());
            proof {
                picked = picked.push(k as int);
                assert(tasks_view(out@) =~= prev.push(top[k as int]));
                assert(tasks_view(out@) =~= picked.map_values(|p: int| top[p]));
                let rest = fit(costs, budget as nat, (used + cost) as nat, k + 1);
                assert(was + (seq![k as int] + rest) =~= picked + rest);
            }
            used = used + cost;
        }
        k = k + 1;
    }
    assert(picked + fit(costs, budget as nat, used as nat, k as int) =~= picked);
    out
}

// ---------------------------------------------------------------------------
// Toggling
// ---------------------------------------------------------------------------

pub open spec fn stale(reason: Seq<char>) -> ErrorView {
    error(
        "CONFLICT"@,
        reason,
        "The note changed since you listed tasks; call list_tasks again."@,
    )
}

/// A task line with its checkbox flipped.
pub open spec fn flipped(line: Seq<char>) -> Seq<char> {
    match mark_at(line) {
        Some(m) => line.update(
            m,
            if line[m] == ' ' {
                'x'
            } else {
                ' '
            },
        ),
        None => line,
    }
}

/// The content with the task at a line flipped, or why it is not.
pub open spec fn toggled(
    note_id: Seq<char>,
    content: Seq<char>,
    line: nat,
    expect_text: Seq<char>,
) -> Result<Seq<char>, ErrorView> {
    let ls = lines(content);
    if line >= ls.len() {
        Err(
            stale(
                "Line "@ + dec(line) + " no longer exists in "@ + debug_text(note_id) + "."@,
            ),
        )
    } else {
        match task_of(note_id, line, ls[line as int]) {
            None => Err(
                stale("Line "@ + dec(line) + " in "@ + debug_text(note_id) + " is not a task."@),
            ),
            Some(t) => if t.text != expect_text {
                Err(
                    stale(
                        "Task at line "@ + dec(line) + " is now "@ + debug_text(t.text)
                            + ", expected "@ + debug_text(expect_text) + "."@,
                    ),
                )
            } else {
                Ok(join(ls.update(line as int, flipped(ls[line as int])), "\n"@))
            },
        }
    }
}

fn stale_error(reason: &str) -> (e: TacitusError)
    ensures
        e@ == stale(reason@),
{
    TacitusError::new(
        "CONFLICT",
        reason,
        "The note changed since you listed tasks; call list_tasks again.",
    )
}

/// Flips the checkbox of the task at `line`. `expect_text` is the task text
/// that the caller last saw: if the line moved or changed, this is a
/// `CONFLICT`, so a stale caller can never toggle the wrong task.
pub fn toggled_content(note_id: &str, content: &str, line: usize, expect_text: &str) -> (r: Result<
    String,
    TacitusError,
>)
    ensures
        match r {
            Ok(s) => toggled(note_id@, content@, line as nat, expect_text@) == Ok::<
                Seq<char>,
                ErrorView,
            >(s@),
            Err(e) => toggled(note_id@, content@, line as nat, expect_text@) == Err::<
                Seq<char>,
                ErrorView,
            >(e@),
        },
{
    let mut ls = lines_of(content);
    let ghost all = texts(ls@);
    if line >= ls.len() {
        let mut reason = "Line ".to_owned();
        reason.append(render_u64(line as u64).as_str());
        reason.append(" no longer exists in ");
        reason.append(quoted(note_id).as_str());
        reason.append(".");
        return Err(stale_error(reason.as_str()));
    }
    let task = match parse_task_line(note_id, line, ls[line].as_str()) {
        Some(t) => t,
        None => {
            let mut reason = "Line ".to_owned();
            reason.append(render_u64(line as u64).as_str());
            reason.append(" in ");
            reason.append(quoted(note_id).as_str());
            reason.append(" is not a task.");
            return Err(stale_error(reason.as_str()));
        },
    };
    if !str_eq(task.text.as_str(), expect_text) {
        let mut reason = "Task at line ".to_owned();
        reason.append(render_u64(line as u64).as_str());
        reason.append(" is now ");
        reason.append(quoted(task.text.as_str()).as_str());
        reason.append(", expected ");
        reason.append(quoted(expect_text).as_str());
        reason.append(".");
        return Err(stale_error(reason.as_str()));
    }
    let mut v = chars_of(ls[line].as_str());
    match find_mark(&v) {
        Some(m) => {
            let c: char = if v[m] == ' ' {
                'x'
            } else {
                ' '
            };
            v.set(m, c);
        },
        None => {},
    }
    assert(v@ =~= flipped(all[line as int]));
    let new_line = string_of(&v);
    ls.set(line, new_line);
    assert(texts(ls@) =~= all.update(line as int, flipped(all[line as int])));
    Ok(join_strings(&ls, "\n"))
}

/// Flipping the checkbox of a task line leaves a task line with the same text,
/// due date and tags and the other status.
pub proof fn lemma_flipped_task(note_id: Seq<char>, number: nat, line: Seq<char>)
    requires
        mark_at(line) is Some,
    ensures
        mark_at(flipped(line)) == mark_at(line),
        task_of(note_id, number, flipped(line)) == Some(
            TaskView {
                done: !task_of(note_id, number, line)->0.done,
                ..task_of(note_id, number, line)->0
            },
        ),
{
    let a = skip_white(line, 0);
    let f = flipped(line);
    lemma_skip_white(line, 0);
    lemma_skip_white(f, 0);
    let b = skip_white(f, 0);
    if b < a {
        assert(f[b] == line[b]);
        assert(is_white(line[b]));
    } else if b > a {
        assert(f[a] == line[a]);
        assert(is_white(f[a]));
        assert(line[a] == '-' || line[a] == '*');
    }
    assert forall|k: int| a + 6 <= k < f.len() implies #[trigger] f[k] != '\n' by {
        assert(f[k] == line[k]);
    }
    assert(f.skip(a + 6) =~= line.skip(a + 6));
}

/// A carriage return at the end of a line says nothing about its task.
proof fn lemma_return_is_nothing(note_id: Seq<char>, number: nat, line: Seq<char>)
    requires
        line.len() > 0,
        line.last() == '\r',
    ensures
        task_of(note_id, number, line.drop_last()) == task_of(note_id, number, line),
{
    let cut = line.drop_last();
    lemma_skip_white(line, 0);
    lemma_skip_white(cut, 0);
    let a = skip_white(line, 0);
    let b = skip_white(cut, 0);
    if b < cut.len() {
        assert(cut[b] == line[b]);
        if a < b {
            assert(cut[a] == line[a]);
        }
        assert(a == b);
        if a + 6 <= line.len() {
            assert forall|k: int| a <= k < cut.len() implies #[trigger] cut[k] == line[k] by {}
            if mark_at(line) is Some {
                assert(line[a + 5] == ' ');
                assert(a + 6 <= cut.len());
                assert forall|k: int| a + 6 <= k < cut.len() implies #[trigger] cut[k] != '\n' by {
                    assert(line[k] != '\n');
                }
            }
            if mark_at(cut) is Some {
                assert forall|k: int| a + 6 <= k < line.len() implies #[trigger] line[k] != '\n' by {
                    if k < cut.len() {
                        assert(cut[k] != '\n');
                    }
                }
            }
        }
        if mark_at(line) is Some {
            let rest = line.skip(a + 6);
            assert(cut.skip(a + 6) =~= rest.drop_last());
            assert(rest.last() == '\r');
            lemma_trim_end_return(rest);
        }
    } else {
        assert(mark_at(cut) is None);
        if a < line.len() {
            if a < cut.len() {
                assert(cut[a] == line[a]);
            }
        }
        assert(mark_at(line) is None);
    }
}

proof fn lemma_back_white_prefix(s: Seq<char>, n: int, j: int)
    requires
        0 <= j <= n <= s.len(),
    ensures
        back_white(s.take(n), j) == back_white(s, j),
    decreases j,
{
    if j > 0 {
        assert(s.take(n)[j - 1] == s[j - 1]);
        lemma_back_white_prefix(s, n, j - 1);
    }
}

proof fn lemma_trim_end_return(s: Seq<char>)
    requires
        s.len() > 0,
        s.last() == '\r',
    ensures
        trim_end(s.drop_last()) == trim_end(s),
{
    let n = s.len() - 1;
    assert(s.drop_last() =~= s.take(n));
    lemma_back_white_prefix(s, n, n);
    lemma_back_white(s, n);
    assert(is_white(s[n]));
    assert(back_white(s, s.len() as int) == back_white(s, n));
    assert(trim_end(s.drop_last()) =~= trim_end(s));
}

/// Tasks do not depend on how their lines end.
proof fn lemma_tasks_read(note_id: Seq<char>, ls: Seq<Seq<char>>, out: Seq<Seq<char>>, i: int)
    requires
        0 <= i,
        reads_as(ls, out),
    ensures
        tasks_from(note_id, out, i) == tasks_from(note_id, ls, i),
    decreases ls.len() - i,
{
    if i < ls.len() {
        lemma_tasks_read(note_id, ls, out, i + 1);
        if i < out.len() {
            assert(out[i] == ls[i] || out[i] == ls[i].drop_last());
            if out[i] != ls[i] {
                lemma_return_is_nothing(note_id, i as nat, ls[i]);
            }
        } else {
            assert(ls[i].len() == 0);
        }
    }
}

/// A task, with the other status where it stands on a line.
pub open spec fn with_flip(t: TaskView, line: nat) -> TaskView {
    if t.line == line {
        TaskView { done: !t.done, ..t }
    } else {
        t
    }
}

proof fn lemma_flip_among(note_id: Seq<char>, ls: Seq<Seq<char>>, line: nat, i: int)
    requires
        0 <= i <= ls.len(),
        line < ls.len(),
        mark_at(ls[line as int]) is Some,
    ensures
        tasks_from(note_id, ls.update(line as int, flipped(ls[line as int])), i) == tasks_from(
            note_id,
            ls,
            i,
        ).map_values(|t: TaskView| with_flip(t, line)),
        i <= line ==> tasks_from(note_id, ls, i).contains(
            task_of(note_id, line, ls[line as int])->0,
        ),
    decreases ls.len() - i,
{
    let out = ls.update(line as int, flipped(ls[line as int]));
    let f = |t: TaskView| with_flip(t, line);
    let was = tasks_from(note_id, ls, i);
    let is = tasks_from(note_id, out, i);
    if i < ls.len() {
        lemma_flip_among(note_id, ls, line, i + 1);
        lemma_flipped_task(note_id, line, ls[line as int]);
        let rest = tasks_from(note_id, ls, i + 1);
        match task_of(note_id, i as nat, ls[i]) {
            Some(t) => {
                assert(was == seq![t] + rest);
                assert(is =~= was.map_values(f));
                if i == line {
                    assert(was[0] == t);
                } else if i < line {
                    let w = task_of(note_id, line, ls[line as int])->0;
                    let k = choose|k: int| 0 <= k < rest.len() && rest[k] == w;
                    assert(was[k + 1] == w);
                }
            },
            None => {
                assert(i != line);
            },
        }
    } else {
        assert(is =~= was.map_values(f));
    }
}

/// A toggle flips one task and no other: the content then has the tasks that it
/// had, on the same lines and with the same texts, due dates and tags, and the
/// one that was meant, whose text is the expected one, has the other status.
pub proof fn law_toggle_flips_one_task(
    note_id: Seq<char>,
    content: Seq<char>,
    line: nat,
    expect_text: Seq<char>,
)
    requires
        toggled(note_id, content, line, expect_text) is Ok,
    ensures
        tasks_in(note_id, toggled(note_id, content, line, expect_text)->Ok_0) == tasks_in(
            note_id,
            content,
        ).map_values(|t: TaskView| with_flip(t, line)),
        exists|k: int|
            0 <= k < tasks_in(note_id, content).len() && (#[trigger] tasks_in(note_id, content)[k]).line
                == line && tasks_in(note_id, content)[k].text == expect_text,
{
    let ls = lines(content);
    let at = line as int;
    let out = ls.update(at, flipped(ls[at]));
    lemma_lines(content);
    lemma_skip_white(ls[at], 0);
    assert forall|k: int, m: int|
        0 <= k < out.len() && 0 <= m < out[k].len() implies #[trigger] out[k][m] != '\n' by {
        if k == at {
            if m != mark_at(ls[at])->0 {
                assert(out[k][m] == ls[k][m]);
            }
        } else {
            assert(out[k][m] == ls[k][m]);
        }
    }
    lemma_joined_lines(out);
    lemma_tasks_read(note_id, out, lines(join(out, "\n"@)), 0);
    lemma_flip_among(note_id, ls, line, 0);
    let w = task_of(note_id, line, ls[at])->0;
    let all = tasks_in(note_id, content);
    let k = choose|k: int| 0 <= k < all.len() && all[k] == w;
    assert(all[k].line == line && all[k].text == expect_text);
}

/// A task is never flipped on a stale text: where the line is gone, is no
/// task, or reads otherwise than expected, the answer is a `CONFLICT`.
pub proof fn law_stale_toggle_conflicts(
    note_id: Seq<char>,
    content: Seq<char>,
    line: nat,
    expect_text: Seq<char>,
)
    ensures
        toggled(note_id, content, line, expect_text) is Ok <==> line < lines(content).len() && (
        task_of(note_id, line, lines(content)[line as int]) matches Some(t) && t.text
            == expect_text),
        toggled(note_id, content, line, expect_text) matches Err(e) ==> e.code == "CONFLICT"@,
{
}

proof fn lemma_sooner_orders(a: TaskView, b: TaskView, c: TaskView)
    ensures
        sooner(a, b) ==> !sooner(b, a),
        sooner(a, c) ==> sooner(a, b) || sooner(b, c),
{
    lemma_string_triple(a.note_id, b.note_id, c.note_id);
    if a.due is Some && b.due is Some && c.due is Some {
        lemma_string_triple(a.due->0, b.due->0, c.due->0);
    } else if a.due is Some && b.due is Some {
        lemma_string_triple(a.due->0, b.due->0, b.due->0);
    } else if a.due is Some && c.due is Some {
        lemma_string_triple(a.due->0, c.due->0, c.due->0);
    } else if b.due is Some && c.due is Some {
        lemma_string_triple(b.due->0, c.due->0, c.due->0);
    }
}

proof fn lemma_string_triple(x: Seq<char>, y: Seq<char>, z: Seq<char>)
    ensures
        before(x, y) ==> !before(y, x) && x != y,
        before(y, z) ==> !before(z, y) && y != z,
        before(x, z) ==> !before(z, x) && x != z,
        x == y || before(x, y) || before(y, x),
        y == z || before(y, z) || before(z, y),
        x == z || before(x, z) || before(z, x),
        before(x, z) ==> x == y || y == z || before(x, y) || before(y, z),
{
    if before(x, y) {
        lemma_before_asym(x, y);
    } else if !before(y, x) {
        lemma_before_total(x, y);
    }
    if before(y, z) {
        lemma_before_asym(y, z);
    } else if !before(z, y) {
        lemma_before_total(y, z);
    }
    if before(x, z) {
        lemma_before_asym(x, z);
        if before(y, x) && before(z, y) {
            lemma_before_trans(z, y, x);
        }
    } else if !before(z, x) {
        lemma_before_total(x, z);
    }
}

/// Listed tasks come in order (by due date, those without one last, then by
/// note and line), at most as many as the limit, and never cost more than the
/// budget.
pub proof fn law_listed_tasks_in_order_and_budget(s: Seq<NoteView>, f: TaskFilterView)
    ensures
        ({
            let out = listed(s, f);
            &&& out.len() <= task_limit(f.limit)->0
            &&& total(task_costs(out)) <= budget_of(f.token_budget)
            &&& forall|a: int, b: int|
                0 <= a < b < out.len() ==> !sooner(#[trigger] out[b], #[trigger] out[a])
        }),
{
    let found = passing_from(vault_tasks_from(s, f.note_id, 0), f, 0);
    let ordered = ordered_tasks(found);
    let top = first_of(ordered, task_limit(f.limit));
    let costs = task_costs(top);
    let picked = fit(costs, budget_of(f.token_budget), 0, 0);
    let out = listed(s, f);
    let less = by_due(found);
    assert(weak_order(found.len(), less)) by {
        assert forall|i: int, j: int| 0 <= i < found.len() && 0 <= j < found.len() && #[trigger] less(
            i,
            j,
        ) implies !less(j, i) by {
            lemma_sooner_orders(found[i], found[j], found[j]);
        }
        assert forall|i: int, j: int, k: int|
            0 <= i < found.len() && 0 <= j < found.len() && 0 <= k < found.len() && #[trigger] less(
                i,
                k,
            ) implies #[trigger] less(i, j) || less(j, k) by {
            lemma_sooner_orders(found[i], found[j], found[k]);
        }
    }
    law_stable_order(found.len(), less);
    law_fit_keeps_budget(costs, budget_of(f.token_budget), 0, 0);
    lemma_fit_len(costs, budget_of(f.token_budget), 0, 0);
    lemma_total_is_cost(costs, picked);
    assert(task_costs(out) =~= picked.map_values(|k: int| costs[k]));
    let order = stable_order(found.len(), less);
    assert forall|a: int, b: int| 0 <= a < b < out.len() implies !sooner(
        #[trigger] out[b],
        #[trigger] out[a],
    ) by {
        assert(picked[a] < picked[b]);
        assert(top[picked[a]] == found[order[picked[a]]]);
        assert(top[picked[b]] == found[order[picked[b]]]);
        assert(!less(order[picked[b]], order[picked[a]]));
    }
}

// ---------------------------------------------------------------------------
// What a task line says
// ---------------------------------------------------------------------------

/// A line with a checkbox: an indent, a bullet, the box with its mark, and a text.
pub open spec fn task_line(indent: Seq<char>, bullet: char, mark: char, text: Seq<char>) -> Seq<
    char,
> {
    indent + seq![bullet, ' ', '[', mark, ']', ' '] + text
}

/// What can stand in the places of a line with a checkbox.
pub open spec fn is_task_line(indent: Seq<char>, bullet: char, mark: char, text: Seq<char>) -> bool {
    &&& forall|k: int| 0 <= k < indent.len() ==> is_white(#[trigger] indent[k])
    &&& bullet == '-' || bullet == '*'
    &&& mark == ' ' || mark == 'x' || mark == 'X'
    &&& forall|k: int| 0 <= k < text.len() ==> #[trigger] text[k] != '\n'
}

proof fn lemma_mark_of(indent: Seq<char>, bullet: char, mark: char, text: Seq<char>)
    requires
        is_task_line(indent, bullet, mark, text),
    ensures
        mark_at(task_line(indent, bullet, mark, text)) == Some(indent.len() as int + 3),
        task_line(indent, bullet, mark, text)[indent.len() as int + 3] == mark,
        task_line(indent, bullet, mark, text).skip(indent.len() as int + 6) == text,
{
    let line = task_line(indent, bullet, mark, text);
    let a: int = indent.len() as int;
    lemma_skip_white(line, 0);
    let w = skip_white(line, 0);
    assert(line[a] == bullet);
    if w < a {
        assert(line[w] == indent[w]);
    } else if w > a {
        assert(is_white(line[a]));
    }
    assert(line.skip(a + 6) =~= text);
    assert forall|k: int| a + 6 <= k < line.len() implies #[trigger] line[k] != '\n' by {
        assert(line[k] == text[k - a - 6]);
    }
}

/// A checkbox line is a task, however far it is indented: open where its box is
/// empty and done where it is ticked, with the text behind the box without the white
/// space at its end. It costs the tokens of its text and eight more.
pub proof fn law_a_checkbox_line_is_a_task(
    note_id: Seq<char>,
    number: nat,
    indent: Seq<char>,
    bullet: char,
    mark: char,
    text: Seq<char>,
)
    requires
        is_task_line(indent, bullet, mark, text),
    ensures
        task_of(note_id, number, task_line(indent, bullet, mark, text)) matches Some(t) && {
            &&& t.note_id == note_id
            &&& t.line == number
            &&& t.done <==> mark == 'x' || mark == 'X'
            &&& t.text == trim_end(text)
            &&& t.tags == inline_tags_from(t.text, 0)
            &&& t.text.len() <= 4 * (t.token_count - 8) < t.text.len() + 4
        },
{
    lemma_mark_of(indent, bullet, mark, text);
}

/// Nothing else is a task: a line that is one has an indent, a bullet, a box and a
/// text.
pub proof fn law_a_task_is_a_checkbox_line(note_id: Seq<char>, number: nat, line: Seq<char>)
    requires
        task_of(note_id, number, line) is Some,
    ensures
        exists|indent: Seq<char>, bullet: char, mark: char, text: Seq<char>|
            is_task_line(indent, bullet, mark, text) && line == #[trigger] task_line(
                indent,
                bullet,
                mark,
                text,
            ),
{
    let m = mark_at(line)->0;
    let a = skip_white(line, 0);
    lemma_skip_white(line, 0);
    let indent = line.take(a);
    let text = line.skip(a + 6);
    assert(line =~= task_line(indent, line[a], line[a + 3], text));
    assert(is_task_line(indent, line[a], line[a + 3], text));
}

proof fn lemma_due_from(s: Seq<char>, p: int)
    requires
        0 <= p,
    ensures
        match due_from(s, p) {
            Some(d) => exists|k: int|
                p <= k < s.len() && (#[trigger] due_start(s, k)) is Some && d == s.subrange(
                    due_start(s, k)->0,
                    due_start(s, k)->0 + 10,
                ) && forall|j: int| p <= j < k ==> (#[trigger] due_start(s, j)) is None,
            None => forall|j: int| p <= j < s.len() ==> (#[trigger] due_start(s, j)) is None,
        },
    decreases s.len() - p,
{
    if p < s.len() && due_start(s, p) is None {
        lemma_due_from(s, p + 1);
    } else if p < s.len() {
        assert(due_start(s, p) is Some);
    }
}

/// A due date is announced: the date of a task is the first of its text that stands
/// right behind `due:`. A date has four digits, two and two, with dashes between.
pub proof fn law_a_due_date_is_announced(early: Seq<char>, date: Seq<char>, rest: Seq<char>)
    requires
        date.len() == 10,
        date_at(date, 0),
        forall|j: int|
            0 <= j < early.len() ==> (#[trigger] due_start(early + "due:"@ + date + rest, j)) is None,
    ensures
        due_from(early + "due:"@ + date + rest, 0) == Some(date),
{
    reveal_strlit("due:");
    let p: int = early.len() as int;
    let s = early + "due:"@ + date + rest;
    assert(s.subrange(p, p + 4) =~= "due:"@);
    lemma_date_moves(s, date, p + 4);
    assert(due_start(s, p) == Some(p + 4));
    lemma_due_is_first(s, p);
}

/// A calendar sign announces a due date too, with white space behind it or none.
pub proof fn law_a_calendar_sign_announces_a_date(
    early: Seq<char>,
    gap: Seq<char>,
    date: Seq<char>,
    rest: Seq<char>,
)
    requires
        date.len() == 10,
        date_at(date, 0),
        !is_white(date[0]),
        forall|k: int| 0 <= k < gap.len() ==> is_white(#[trigger] gap[k]),
        forall|j: int|
            0 <= j < early.len() ==> (#[trigger] due_start(
                early + seq!['\u{1F4C5}'] + gap + date + rest,
                j,
            )) is None,
    ensures
        due_from(early + seq!['\u{1F4C5}'] + gap + date + rest, 0) == Some(date),
{
    reveal_strlit("due:");
    let p: int = early.len() as int;
    let t = early + seq!['\u{1F4C5}'] + gap + date + rest;
    let q: int = p + 1 + gap.len();
    assert(t[p] == '\u{1F4C5}');
    assert(t.subrange(q, q + 10) =~= date);
    lemma_date_moves(t, date, q);
    lemma_skip_white(t, p + 1);
    let w = skip_white(t, p + 1);
    assert(t[q] == date[0]);
    if w < q {
        assert(t[w] == gap[w - p - 1]);
    } else if w > q {
        assert(is_white(t[q]));
    }
    assert(!matches_at(t, "due:"@, p)) by {
        if matches_at(t, "due:"@, p) {
            assert(t.subrange(p, p + 4)[0] == "due:"@[0]);
        }
    }
    assert(due_start(t, p) == Some(q));
    lemma_due_is_first(t, p);
}

proof fn lemma_date_moves(s: Seq<char>, date: Seq<char>, q: int)
    requires
        date.len() == 10,
        date_at(date, 0),
        0 <= q <= s.len() - 10,
        s.subrange(q, q + 10) =~= date,
    ensures
        date_at(s, q),
        s.subrange(q, q + 10) == date,
{
    let d = s.subrange(q, q + 10);
    assert(d == date);
    assert(d[0] == s[q] && d[1] == s[q + 1] && d[2] == s[q + 2] && d[3] == s[q + 3] && d[4] == s[q
        + 4] && d[5] == s[q + 5] && d[6] == s[q + 6] && d[7] == s[q + 7] && d[8] == s[q + 8] && d[9]
        == s[q + 9]);
}

proof fn lemma_due_is_first(s: Seq<char>, p: int)
    requires
        0 <= p < s.len(),
        due_start(s, p) is Some,
        forall|j: int| 0 <= j < p ==> (#[trigger] due_start(s, j)) is None,
    ensures
        due_from(s, 0) == Some(s.subrange(due_start(s, p)->0, due_start(s, p)->0 + 10)),
{
    lemma_due_from(s, 0);
    match due_from(s, 0) {
        Some(d) => {
            let k = choose|k: int|
                0 <= k < s.len() && (#[trigger] due_start(s, k)) is Some && d == s.subrange(
                    due_start(s, k)->0,
                    due_start(s, k)->0 + 10,
                ) && forall|j: int| 0 <= j < k ==> (#[trigger] due_start(s, j)) is None;
            assert(k == p);
        },
        None => {
            assert(due_start(s, p) is None);
        },
    }
}

/// No date is made up: the date that a text has stands in it, in the form of a date,
/// and something announces it.
pub proof fn law_a_due_date_stands_in_the_text(s: Seq<char>)
    ensures
        due_from(s, 0) matches Some(d) ==> d.len() == 10 && date_at(d, 0) && exists|q: int|
            {
                &&& #[trigger] s.subrange(q, q + 10) == d
                &&& 0 < q <= s.len() - 10
                &&& (q >= 4 && s.subrange(q - 4, q) == "due:"@) || exists|p: int|
                    0 <= p < q && #[trigger] s[p] == '\u{1F4C5}' && forall|k: int|
                        p < k < q ==> is_white(#[trigger] s[k])
            },
{
    lemma_due_from(s, 0);
    if let Some(d) = due_from(s, 0) {
        let k = choose|k: int|
            0 <= k < s.len() && (#[trigger] due_start(s, k)) is Some && d == s.subrange(
                due_start(s, k)->0,
                due_start(s, k)->0 + 10,
            ) && forall|j: int| 0 <= j < k ==> (#[trigger] due_start(s, j)) is None;
        let q = due_start(s, k)->0;
        assert forall|i: int| 0 <= i < 10 implies d[i] == #[trigger] s[q + i] by {}
        assert(date_at(s, q));
        assert(d[0] == s[q + 0] && d[1] == s[q + 1] && d[2] == s[q + 2] && d[3] == s[q + 3] && d[4]
            == s[q + 4] && d[5] == s[q + 5] && d[6] == s[q + 6] && d[7] == s[q + 7] && d[8] == s[q
            + 8] && d[9] == s[q + 9]);
        assert(date_at(d, 0));
        reveal_strlit("due:");
        if matches_at(s, "due:"@, k) && date_at(s, k + 4) {
            assert(s.subrange(q - 4, q) == "due:"@);
        } else {
            lemma_skip_white(s, k + 1);
            assert(s[k] == '\u{1F4C5}');
        }
        assert(s.subrange(q, q + 10) == d);
    }
}

// ---------------------------------------------------------------------------
// What is listed
// ---------------------------------------------------------------------------

/// Whether the answer to a filter may hold a task, field by field.
pub open spec fn is_wanted(t: TaskView, f: TaskFilterView) -> bool {
    &&& f.note_id is Some ==> t.note_id == f.note_id->0
    &&& f.done is Some ==> t.done == f.done->0
    &&& f.tag is Some ==> exists|k: int| 0 <= k < t.tags.len() && #[trigger] t.tags[k] == f.tag->0
    &&& f.due_before is Some ==> t.due is Some && before(t.due->0, f.due_before->0)
    &&& f.due_after is Some ==> t.due is Some && (t.due->0 == f.due_after->0 || before(
        f.due_after->0,
        t.due->0,
    ))
}

proof fn lemma_passing_has(ts: Seq<TaskView>, f: TaskFilterView, i: int, t: TaskView)
    requires
        0 <= i <= ts.len(),
    ensures
        passing_from(ts, f, i).contains(t) <==> passes(t, f) && ts.skip(i).contains(t),
        passing_from(ts, f, i).len() <= ts.len() - i,
    decreases ts.len() - i,
{
    if i < ts.len() {
        lemma_passing_has(ts, f, i + 1, t);
        let rest = passing_from(ts, f, i + 1);
        let all = passing_from(ts, f, i);
        let short = ts.skip(i + 1);
        assert(ts.skip(i) =~= seq![ts[i]] + short);
        lemma_front_has(ts[i], short, t);
        if passes(ts[i], f) {
            lemma_front_has(ts[i], rest, t);
        }
    }
}

proof fn lemma_front_has(first: TaskView, rest: Seq<TaskView>, t: TaskView)
    ensures
        (seq![first] + rest).contains(t) <==> t == first || rest.contains(t),
{
    let all = seq![first] + rest;
    assert(all[0] == first);
    if rest.contains(t) {
        let a = choose|a: int| 0 <= a < rest.len() && rest[a] == t;
        assert(all[a + 1] == t);
    }
    if all.contains(t) && t != first {
        let a = choose|a: int| 0 <= a < all.len() && all[a] == t;
        assert(rest[a - 1] == t);
    }
}

proof fn lemma_vault_tasks_has(s: Seq<NoteView>, wanted: Option<Seq<char>>, i: int, t: TaskView)
    requires
        0 <= i,
    ensures
        vault_tasks_from(s, wanted, i).contains(t) <==> exists|k: int|
            i <= k < s.len() && (wanted is None || wanted->0 == s[k].id) && #[trigger] tasks_in(
                s[k].id,
                s[k].content,
            ).contains(t),
    decreases s.len() - i,
{
    if i < s.len() {
        lemma_vault_tasks_has(s, wanted, i + 1, t);
        let mine = tasks_in(s[i].id, s[i].content);
        let rest = vault_tasks_from(s, wanted, i + 1);
        let all = vault_tasks_from(s, wanted, i);
        if wanted is None || wanted == Some(s[i].id) {
            assert(all == mine + rest);
            assert(all.contains(t) <==> mine.contains(t) || rest.contains(t)) by {
                if mine.contains(t) {
                    let a = choose|a: int| 0 <= a < mine.len() && mine[a] == t;
                    assert(all[a] == t);
                }
                if rest.contains(t) {
                    let a = choose|a: int| 0 <= a < rest.len() && rest[a] == t;
                    assert(all[mine.len() + a] == t);
                }
            }
            if mine.contains(t) {
                assert(tasks_in(s[i].id, s[i].content).contains(t));
            }
        }
    }
}

proof fn lemma_task_note(note_id: Seq<char>, ls: Seq<Seq<char>>, i: int)
    requires
        0 <= i,
    ensures
        forall|k: int|
            0 <= k < tasks_from(note_id, ls, i).len() ==> {
                let t = #[trigger] tasks_from(note_id, ls, i)[k];
                &&& i <= t.line < ls.len()
                &&& task_of(note_id, t.line, ls[t.line as int]) == Some(t)
            },
        forall|p: int|
            i <= p < ls.len() && (#[trigger] task_of(note_id, p as nat, ls[p])) is Some
                ==> tasks_from(note_id, ls, i).contains(task_of(note_id, p as nat, ls[p])->0),
        forall|a: int, b: int|
            0 <= a < b < tasks_from(note_id, ls, i).len() ==> (#[trigger] tasks_from(
                note_id,
                ls,
                i,
            )[a]).line < (#[trigger] tasks_from(note_id, ls, i)[b]).line,
    decreases ls.len() - i,
{
    if i < ls.len() {
        lemma_task_note(note_id, ls, i + 1);
        let rest = tasks_from(note_id, ls, i + 1);
        let all = tasks_from(note_id, ls, i);
        if let Some(t) = task_of(note_id, i as nat, ls[i]) {
            assert(all == seq![t] + rest);
            assert forall|k: int| 0 <= k < all.len() implies {
                let t = #[trigger] all[k];
                &&& i <= t.line < ls.len()
                &&& task_of(note_id, t.line, ls[t.line as int]) == Some(t)
            } by {
                if k > 0 {
                    assert(all[k] == rest[k - 1]);
                }
            }
            assert forall|p: int|
                i <= p < ls.len() && (#[trigger] task_of(note_id, p as nat, ls[p]))
                    is Some implies all.contains(task_of(note_id, p as nat, ls[p])->0) by {
                lemma_front_has(t, rest, task_of(note_id, p as nat, ls[p])->0);
            }
            assert forall|a: int, b: int| 0 <= a < b < all.len() implies (#[trigger] all[a]).line < (
            #[trigger] all[b]).line by {
                assert(all[b] == rest[b - 1]);
                if a > 0 {
                    assert(all[a] == rest[a - 1]);
                }
            }
        }
    }
}

/// The tasks of a content are those of its lines, each under the number of its line,
/// in line order, and no task line is left out.
pub proof fn law_the_tasks_of_a_note_are_its_lines(note_id: Seq<char>, content: Seq<char>, p: int)
    requires
        0 <= p < lines(content).len(),
    ensures
        forall|k: int|
            0 <= k < tasks_in(note_id, content).len() ==> {
                let t = #[trigger] tasks_in(note_id, content)[k];
                &&& t.note_id == note_id
                &&& t.line < lines(content).len()
                &&& task_of(note_id, t.line, lines(content)[t.line as int]) == Some(t)
            },
        task_of(note_id, p as nat, lines(content)[p]) matches Some(t) ==> tasks_in(
            note_id,
            content,
        ).contains(t),
        forall|a: int, b: int|
            0 <= a < b < tasks_in(note_id, content).len() ==> (#[trigger] tasks_in(
                note_id,
                content,
            )[a]).line < (#[trigger] tasks_in(note_id, content)[b]).line,
{
    lemma_task_note(note_id, lines(content), 0);
}

/// What is listed is wanted: each listed task is a task of a note of the vault, of
/// the note asked for where one is, with the status and the tag asked for, due
/// before the one day and not before the other.
pub proof fn law_listed_tasks_are_wanted(s: Seq<NoteView>, f: TaskFilterView, k: int)
    requires
        0 <= k < listed(s, f).len(),
    ensures
        is_wanted(listed(s, f)[k], f),
        exists|p: int|
            0 <= p < s.len() && s[p].id == listed(s, f)[k].note_id && #[trigger] tasks_in(
                s[p].id,
                s[p].content,
            ).contains(listed(s, f)[k]),
{
    let all = vault_tasks_from(s, f.note_id, 0);
    let found = passing_from(all, f, 0);
    let less = by_due(found);
    let order = stable_order(found.len(), less);
    let top = first_of(ordered_tasks(found), task_limit(f.limit));
    let costs = task_costs(top);
    let picked = fit(costs, budget_of(f.token_budget), 0, 0);
    law_fit_keeps_budget(costs, budget_of(f.token_budget), 0, 0);
    lemma_stable_order_range(found.len(), less);
    let t = listed(s, f)[k];
    assert(t == top[picked[k]]);
    assert(t == found[order[picked[k]]]);
    assert(found.contains(t));
    lemma_passing_has(all, f, 0, t);
    assert(all.skip(0) =~= all);
    lemma_vault_tasks_has(s, f.note_id, 0, t);
    let p = choose|p: int|
        0 <= p < s.len() && (f.note_id is None || f.note_id->0 == s[p].id) && #[trigger] tasks_in(
            s[p].id,
            s[p].content,
        ).contains(t);
    let mine = tasks_in(s[p].id, s[p].content);
    lemma_task_note(s[p].id, lines(s[p].content), 0);
    let a = choose|a: int| 0 <= a < mine.len() && mine[a] == t;
    assert(t.note_id == s[p].id);
    if let Some(cut) = f.due_after {
        if t.due->0 != cut && !before(cut, t.due->0) {
            lemma_before_total(cut, t.due->0);
        }
    }
    if let Some(tag) = f.tag {
        let j = choose|j: int| 0 <= j < t.tags.len() && t.tags[j] == tag;
        assert(t.tags[j] == tag);
    }
}

/// Nothing wanted is left out where neither the limit nor the budget stands against
/// it: a task of a note of the vault that the filter wants is listed.
pub proof fn law_wanted_tasks_are_listed(s: Seq<NoteView>, f: TaskFilterView, p: int, t: TaskView)
    requires
        0 <= p < s.len(),
        tasks_in(s[p].id, s[p].content).contains(t),
        is_wanted(t, f),
        vault_tasks_from(s, f.note_id, 0).len() <= match f.limit {
            Some(n) => n as int,
            None => 100,
        },
        total(
            task_costs(ordered_tasks(passing_from(vault_tasks_from(s, f.note_id, 0), f, 0))),
        ) <= budget_of(f.token_budget),
    ensures
        listed(s, f).contains(t),
{
    let all = vault_tasks_from(s, f.note_id, 0);
    let found = passing_from(all, f, 0);
    let less = by_due(found);
    let order = stable_order(found.len(), less);
    let ordered = ordered_tasks(found);
    let top = first_of(ordered, task_limit(f.limit));
    let costs = task_costs(top);
    let picked = fit(costs, budget_of(f.token_budget), 0, 0);
    let mine = tasks_in(s[p].id, s[p].content);
    lemma_task_note(s[p].id, lines(s[p].content), 0);
    let m = choose|m: int| 0 <= m < mine.len() && mine[m] == t;
    assert(t.note_id == s[p].id);
    lemma_vault_tasks_has(s, f.note_id, 0, t);
    if let Some(cut) = f.due_after {
        if before(cut, t.due->0) {
            lemma_before_asym(cut, t.due->0);
        }
        if before(t.due->0, cut) {
            lemma_before_asym(t.due->0, cut);
        }
    }
    if let Some(tag) = f.tag {
        let j = choose|j: int| 0 <= j < t.tags.len() && #[trigger] t.tags[j] == f.tag->0;
        assert(t.tags.contains(tag));
    }
    assert(passes(t, f));
    lemma_passing_has(all, f, 0, t);
    assert(all.skip(0) =~= all);
    lemma_stable_order_range(found.len(), less);
    assert(top =~= ordered);
    let k = choose|k: int| 0 <= k < found.len() && found[k] == t;
    lemma_stable_order_has(found.len(), less, k);
    let a = choose|a: int| 0 <= a < order.len() && order[a] == k;
    assert(ordered[a] == t);
    assert(costs.skip(0) =~= costs);
    lemma_all_fit(costs, budget_of(f.token_budget), 0, 0);
    assert(picked.contains(a));
    let b = choose|b: int| 0 <= b < picked.len() && picked[b] == a;
    assert(listed(s, f)[b] == t);
}

/// The order of what is listed, field by field: the earlier due date first, tasks
/// without one last; of one date the note whose id comes first, and in one note the
/// upper line. Without a limit no more than a hundred are listed.
pub proof fn law_listed_tasks_come_by_due_date(s: Seq<NoteView>, f: TaskFilterView, a: int, b: int)
    requires
        0 <= a < b < listed(s, f).len(),
    ensures
        ({
            let x = listed(s, f)[a];
            let y = listed(s, f)[b];
            &&& x.due is None ==> y.due is None
            &&& x.due is Some && y.due is Some ==> x.due == y.due || before(x.due->0, y.due->0)
            &&& x.due == y.due ==> x.note_id == y.note_id || before(x.note_id, y.note_id)
            &&& x.due == y.due && x.note_id == y.note_id ==> x.line <= y.line
            &&& f.limit is None ==> listed(s, f).len() <= 100
            &&& f.limit is Some ==> listed(s, f).len() <= f.limit->0
        }),
{
    law_listed_tasks_in_order_and_budget(s, f);
    let x = listed(s, f)[a];
    let y = listed(s, f)[b];
    assert(!sooner(y, x));
    if x.due is Some && y.due is Some && x.due != y.due && !before(x.due->0, y.due->0) {
        lemma_before_total(x.due->0, y.due->0);
    }
    if x.due == y.due && x.note_id != y.note_id && !before(x.note_id, y.note_id) {
        lemma_before_total(x.note_id, y.note_id);
    }
}

/// A toggle changes one character: the mark of the task's box, which is ticked with
/// an `x` where it was empty and emptied where it was ticked. Every other line stays
/// as it was read.
pub proof fn law_toggle_changes_one_mark(
    note_id: Seq<char>,
    content: Seq<char>,
    line: nat,
    expect_text: Seq<char>,
    indent: Seq<char>,
    bullet: char,
    mark: char,
    text: Seq<char>,
)
    requires
        toggled(note_id, content, line, expect_text) is Ok,
        is_task_line(indent, bullet, mark, text),
        lines(content)[line as int] == task_line(indent, bullet, mark, text),
    ensures
        line < lines(content).len(),
        trim_end(text) == expect_text,
        toggled(note_id, content, line, expect_text)->Ok_0 == join(
            lines(content).update(
                line as int,
                task_line(
                    indent,
                    bullet,
                    if mark == ' ' {
                        'x'
                    } else {
                        ' '
                    },
                    text,
                ),
            ),
            "\n"@,
        ),
{
    lemma_mark_of(indent, bullet, mark, text);
    let ls = lines(content);
    let other = if mark == ' ' {
        'x'
    } else {
        ' '
    };
    assert(flipped(ls[line as int]) =~= task_line(indent, bullet, other, text));
}

} // verus!
