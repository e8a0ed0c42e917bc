//! Templates with schema: a template is a Markdown file whose `{{var}}`
//! placeholders form its schema. Rendering substitutes on the raw text,
//! frontmatter included, so `priority: {{p}}` with `p` set to 3 reads back as
//! a real number.
use crate::error::{error, ErrorView, TacitusError};
use crate::order::{
    law_stable_order, lemma_before_asym, lemma_before_total, lemma_before_trans,
    lemma_stable_order_has, lemma_stable_order_range, positions, sort_positions, stable_order,
    str_before, weak_order,
};
use crate::paths::{is_markdown_name, join_path, markdown_name, path_join, strip_md, without_md};
use crate::strmap::StrMap;
use crate::text::{
    chars_of, copy_strings, debug_text, has_string, holds, is_alnum, is_alnum_char, is_white, join,
    join_strings, lemma_skip_white, next_char, quoted, skip_white, str_eq, str_holds, string_range,
    texts, white_end,
};
use vstd::prelude::*;
use vstd::string::*;

verus! {

/// A template: its name and the variables that a caller must supply (those
/// that fill themselves are left out).
#[derive(Debug)]
pub struct Template {
    pub name: String,
    pub vars: Vec<String>,
}

/// The model of a template.
#[verifier::ext_equal]
pub struct TemplateView {
    pub name: Seq<char>,
    pub vars: Seq<Seq<char>>,
}

impl View for Template {
    type V = TemplateView;

    open spec fn view(&self) -> TemplateView {
        TemplateView { name: self.name@, vars: texts(self.vars@) }
    }
}

pub open spec fn templates_view(v: Seq<Template>) -> Seq<TemplateView> {
    v.map_values(|t: Template| t@)
}

/// What the clock fills in.
#[derive(Debug)]
pub struct Clock {
    pub date: String,
    pub time: String,
    pub datetime: String,
}

/// The model of what the clock fills in.
#[verifier::ext_equal]
pub struct ClockView {
    pub date: Seq<char>,
    pub time: Seq<char>,
    pub datetime: Seq<char>,
}

impl View for Clock {
    type V = ClockView;

    open spec fn view(&self) -> ClockView {
        ClockView { date: self.date@, time: self.time@, datetime: self.datetime@ }
    }
}

/// The variables that fill themselves.
pub open spec fn is_builtin(name: Seq<char>) -> bool {
    name == "date"@ || name == "time"@ || name == "datetime"@
}

/// The characters of a variable name.
pub open spec fn is_name_char(c: char) -> bool {
    is_alnum(c) || c == '_'
}

/// The end of the run of name characters that starts at `i`.
pub open spec fn name_end(s: Seq<char>, i: int) -> int
    decreases s.len() - i,
{
    if 0 <= i < s.len() && is_name_char(s[i]) {
        name_end(s, i + 1)
    } else {
        i
    }
}

/// A placeholder: where its name starts and ends, and where it ends itself.
pub struct Slot {
    pub from: int,
    pub to: int,
    pub end: int,
}

/// The placeholder that starts at `i`: two braces, a name, two braces, with
/// white space around the name.
pub open spec fn slot_at(s: Seq<char>, i: int) -> Option<Slot> {
    if 0 <= i && i + 2 <= s.len() && s[i] == '{' && s[i + 1] == '{' {
        let from = skip_white(s, i + 2);
        let to = name_end(s, from);
        let end = skip_white(s, to);
        if from < to && end + 2 <= s.len() && s[end] == '}' && s[end + 1] == '}' {
            Some(Slot { from, to, end: end + 2 })
        } else {
            None
        }
    } else {
        None
    }
}

/// The names of the placeholders of `s[i..]`, repeats and all.
pub open spec fn names_from(s: Seq<char>, i: int) -> Seq<Seq<char>>
    decreases s.len() - i,
{
    if i < 0 || i >= s.len() {
        seq![]
    } else {
        match slot_at(s, i) {
            Some(p) => if i < p.end <= s.len() {
                seq![s.subrange(p.from, p.to)] + names_from(s, p.end)
            } else {
                seq![]
            },
            None => names_from(s, i + 1),
        }
    }
}

/// `seen` with those of `names` from `k` on that are neither builtin nor there.
pub open spec fn vars_onto(seen: Seq<Seq<char>>, names: Seq<Seq<char>>, k: int) -> Seq<Seq<char>>
    decreases names.len() - k,
{
    if k < 0 || k >= names.len() {
        seen
    } else if is_builtin(names[k]) || seen.contains(names[k]) {
        vars_onto(seen, names, k + 1)
    } else {
        vars_onto(seen.push(names[k]), names, k + 1)
    }
}

/// The variables of a template: its placeholders but for the builtin ones,
/// each once, in order of first appearance.
pub open spec fn vars_of(raw: Seq<char>) -> Seq<Seq<char>> {
    vars_onto(seq![], names_from(raw, 0), 0)
}

fn name_char(c: char) -> (r: bool)
    ensures
        r == is_name_char(c),
{
    is_alnum_char(c) || c == '_'
}

fn find_slot(v: &Vec<char>, i: usize) -> (r: Option<(usize, usize, usize)>)
    requires
        i <= v@.len(),
    ensures
        match r {
            Some(p) => slot_at(v@, i as int) == Some(
                Slot { from: p.0 as int, to: p.1 as int, end: p.2 as int },
            ) && i < p.0 < p.1 < p.2 <= v@.len(),
            None => slot_at(v@, i as int) is None,
        },
{
    let n: usize = v.len();
    if n - i < 2 || v[i] != '{' || v[i + 1] != '{' {
        return None;
    }
    let from: usize = white_end(v, i + 2);
    let mut to: usize = from;
    while to < n && name_char(v[to])
        invariant
            n == v@.len(),
            from <= to <= n,
            name_end(v@, from as int) == name_end(v@, to as int),
        decreases n - to,
    {
        to = to + 1;
    }
    let end: usize = white_end(v, to);
    if from < to && n - end >= 2 && v[end] == '}' && v[end + 1] == '}' {
        Some((from, to, end + 2))
    } else {
        None
    }
}

fn builtin_name(name: &str) -> (r: bool)
    ensures
        r == is_builtin(name@),
{
    str_eq(name, "date") || str_eq(name, "time") || str_eq(name, "datetime")
}

/// The unique non-builtin placeholders, in order of first appearance.
pub fn template_vars(raw: &str) -> (r: Vec<String>)
    ensures
        texts(r@) == vars_of(raw@),
{
    let v = chars_of(raw);
    let n: usize = v.len();
    let ghost names = names_from(raw@, 0);
    let ghost mut done: Seq<Seq<char>> = seq![];
    let mut vars: Vec<String> = Vec::new();
    assert(texts(vars@) =~= seq![]);
    let mut i: usize = 0;
    while i < n
        invariant
            n == v@.len(),
            v@ == raw@,
            i <= n,
            names == names_from(raw@, 0),
            names == done + names_from(raw@, i as int),
            vars_onto(seq![], names, 0) == vars_onto(texts(vars@), names, done.len() as int),
        decreases n - i,
    {
        match find_slot(&v, i) {
            Some(p) => {
                let name = string_range(&v, p.0, p.1);
                assert(names[done.len() as int] == name@);
                if !builtin_name(name.as_str()) && !has_string(&vars, name.as_str()) {
                    let ghost prev = texts(vars@);
                    let ghost nv = name@;
                    vars.push(name);
                    assert(texts(vars@) =~= prev.push(nv));
                }
                proof {
                    let next = done.push(raw@.subrange(p.0 as int, p.1 as int));
                    assert(names =~= next + names_from(raw@, p.2 as int));
                    done = next;
                }
                i = p.2;
            },
            None => {
                i = i + 1;
            },
        }
    }
    assert(done =~= names);
    vars
}

/// The value of a builtin variable.
pub open spec fn builtin_value(name: Seq<char>, now: ClockView) -> Seq<char> {
    if name == "date"@ {
        now.date
    } else if name == "time"@ {
        now.time
    } else {
        now.datetime
    }
}

/// The value of a variable: the supplied one, else what the clock fills in.
pub open spec fn var_value(name: Seq<char>, vars: Map<Seq<char>, String>, now: ClockView) -> Seq<
    char,
> {
    if vars.contains_key(name) {
        vars[name]@
    } else {
        builtin_value(name, now)
    }
}

/// `s[i..]` with its placeholders filled in.
pub open spec fn filled_from(
    s: Seq<char>,
    vars: Map<Seq<char>, String>,
    now: ClockView,
    i: int,
) -> Seq<char>
    decreases s.len() - i,
{
    if i < 0 || i >= s.len() {
        seq![]
    } else {
        match slot_at(s, i) {
            Some(p) => if i < p.end <= s.len() {
                var_value(s.subrange(p.from, p.to), vars, now) + filled_from(s, vars, now, p.end)
            } else {
                seq![]
            },
            None => seq![s[i]] + filled_from(s, vars, now, i + 1),
        }
    }
}

/// The variables from `k` on that are not supplied.
pub open spec fn missing_from(
    wanted: Seq<Seq<char>>,
    vars: Map<Seq<char>, String>,
    k: int,
) -> Seq<Seq<char>>
    decreases wanted.len() - k,
{
    if k < 0 || k >= wanted.len() {
        seq![]
    } else if vars.contains_key(wanted[k]) {
        missing_from(wanted, vars, k + 1)
    } else {
        seq![wanted[k]] + missing_from(wanted, vars, k + 1)
    }
}

/// What rendering gives at a time: the text with its placeholders filled in,
/// or an error that names exactly the variables that are missing.
pub open spec fn rendered(raw: Seq<char>, vars: Map<Seq<char>, String>, now: ClockView) -> Result<
    Seq<char>,
    ErrorView,
> {
    let missing = missing_from(vars_of(raw), vars, 0);
    if missing.len() > 0 {
        Err(
            error(
                "MISSING_VARS"@,
                "Template requires vars: "@ + join(missing, ", "@) + "."@,
                "Pass every listed var in the vars object."@,
            ),
        )
    } else {
        Ok(filled_from(raw, vars, now, 0))
    }
}

/// The model of what rendering returns.
pub open spec fn text_outcome(r: Result<String, TacitusError>) -> Result<Seq<char>, ErrorView> {
    match r {
        Ok(s) => Ok(s@),
        Err(e) => Err(e@),
    }
}

/// The last second that a date and time can have: the end of the year 262142.
pub const LAST_SECOND: i64 = 8210266876799;

/// A moment somewhere on earth: the seconds since 1970 in UTC, the nanoseconds
/// on top of them, and how many seconds local time is ahead of UTC.
#[derive(Debug, Clone, Copy)]
pub struct Instant {
    pub secs: i64,
    pub nanos: u32,
    pub offset: i32,
}

/// Whether a moment has a date and a time.
pub open spec fn is_moment(at: Instant) -> bool {
    0 <= at.secs <= LAST_SECOND && at.nanos < 1_000_000_000 && -86_400 < at.offset < 86_400
}

/// `chrono::Local::now`, taken apart. Nothing is said of which moment it is.
#[verifier::external_body]
fn local_now() -> (r: Instant)
    ensures
        is_moment(r),
{
    let now = chrono::Local::now();
    Instant {
        secs: now.timestamp(),
        nanos: now.timestamp_subsec_nanos(),
        offset: now.offset().local_minus_utc(),
    }
}

/// How `DateTime::format` of chrono shows a moment in local time, by the format.
pub uninterp spec fn time_text(secs: i64, nanos: u32, offset: i32, format: Seq<char>) -> Seq<char>;

/// How `DateTime::to_rfc3339` of chrono shows a moment in local time.
pub uninterp spec fn rfc3339_text(secs: i64, nanos: u32, offset: i32) -> Seq<char>;

/// `DateTime::format` of chrono, on a moment in local time. A date has at least
/// ten characters, and a time of hours and minutes five, the third a colon.
/// Other formats are left out: the call panics where one is malformed.
#[verifier::external_body]
fn show_time(at: Instant, format: &str) -> (r: String)
    requires
        is_moment(at),
        format@ == "%Y-%m-%d"@ || format@ == "%H:%M"@,
    ensures
        r@ == time_text(at.secs, at.nanos, at.offset, format@),
        format@ == "%Y-%m-%d"@ ==> r@.len() >= 10,
        format@ == "%H:%M"@ ==> r@.len() == 5 && r@[2] == ':',
{
    let utc = chrono::DateTime::from_timestamp(at.secs, at.nanos).unwrap();
    let zone = chrono::FixedOffset::east_opt(at.offset).unwrap();
    utc.with_timezone(&zone).format(format).to_string()
}

/// `DateTime::to_rfc3339` of chrono, on a moment in local time: date, time and
/// offset, at least 25 characters.
#[verifier::external_body]
fn show_rfc3339(at: Instant) -> (r: String)
    requires
        is_moment(at),
    ensures
        r@ == rfc3339_text(at.secs, at.nanos, at.offset),
        r@.len() >= 25,
{
    let utc = chrono::DateTime::from_timestamp(at.secs, at.nanos).unwrap();
    let zone = chrono::FixedOffset::east_opt(at.offset).unwrap();
    utc.with_timezone(&zone).to_rfc3339()
}

/// What a clock shows at a moment.
pub open spec fn clock_at(at: Instant) -> ClockView {
    ClockView {
        date: time_text(at.secs, at.nanos, at.offset, "%Y-%m-%d"@),
        time: time_text(at.secs, at.nanos, at.offset, "%H:%M"@),
        datetime: rfc3339_text(at.secs, at.nanos, at.offset),
    }
}

/// The shape of what a clock shows.
pub open spec fn is_clock(c: ClockView) -> bool {
    c.date.len() >= 10 && c.time.len() == 5 && c.time[2] == ':' && c.datetime.len() >= 25
}

/// Whether a clock shows a moment.
pub open spec fn shows(c: ClockView, at: Instant) -> bool {
    is_moment(at) && c == clock_at(at) && is_clock(c)
}

/// What a clock shows at a moment.
pub fn clock_of(at: Instant) -> (r: Clock)
    requires
        is_moment(at),
    ensures
        shows(r@, at),
{
    Clock {
        date: show_time(at, "%Y-%m-%d"),
        time: show_time(at, "%H:%M"),
        datetime: show_rfc3339(at),
    }
}

/// What a clock shows now.
pub fn clock_now() -> (r: Clock)
    ensures
        exists|at: Instant| #[trigger] shows(r@, at),
{
    let at = local_now();
    clock_of(at)
}

/// Substitutes the placeholders of a template at a given time.
pub fn render_at(raw: &str, vars: &StrMap<String>, now: &Clock) -> (r: Result<
    String,
    TacitusError,
>)
    ensures
        text_outcome(r) == rendered(raw@, vars@, now@),
{
    let wanted = template_vars(raw);
    let ghost w = texts(wanted@);
    let mut missing: Vec<String> = Vec::new();
    assert(texts(missing@) =~= seq![]);
    let mut k: usize = 0;
    while k < wanted.len()
        invariant
            k <= wanted@.len(),
            w == texts(wanted@),
            missing_from(w, vars@, 0) == texts(missing@) + missing_from(w, vars@, k as int),
        decreases wanted@.len() - k,
    {
        if !vars.contains_key(wanted[k].as_str()) {
            let ghost prev = texts(missing@);
            missing.push(wanted[k].clone());
            assert(texts(missing@) =~= prev.push(w[k as int]));
            assert(prev + (seq![w[k as int]] + missing_from(w, vars@, k + 1)) =~= texts(missing@)
                + missing_from(w, vars@, k + 1));
        }
        k = k + 1;
    }
    assert(texts(missing@) + missing_from(w, vars@, k as int) =~= texts(missing@));
    if missing.len() > 0 {
        let mut reason = "Template requires vars: ".to_owned();
        reason.append(join_strings(&missing, ", ").as_str());
        reason.append(".");
        return Err(
            TacitusError::new(
                "MISSING_VARS",
                reason.as_str(),
                "Pass every listed var in the vars object.",
            ),
        );
    }
    let v = chars_of(raw);
    let n: usize = v.len();
    let mut out = String::new();
    let mut i: usize = 0;
    while i < n
        invariant
            n == v@.len(),
            v@ == raw@,
            i <= n,
            filled_from(raw@, vars@, now@, 0) == out@ + filled_from(raw@, vars@, now@, i as int),
        decreases n - i,
    {
        let ghost prev = out@;
        match find_slot(&v, i) {
            Some(p) => {
                let name = string_range(&v, p.0, p.1);
                match vars.get(name.as_str()) {
                    Some(value) => out.append(value.as_str()),
                    None => if str_eq(name.as_str(), "date") {
                        out.append(now.date.as_str())
                    } else if str_eq(name.as_str(), "time") {
                        out.append(now.time.as_str())
                    } else {
                        out.append(now.datetime.as_str())
                    },
                }
                assert(prev + (var_value(name@, vars@, now@) + filled_from(
                    raw@,
                    vars@,
                    now@,
                    p.2 as int,
                )) =~= out@ + filled_from(raw@, vars@, now@, p.2 as int));
                i = p.2;
            },
            None => {
                out.push(v[i]);
                assert(prev + (seq![raw@[i as int]] + filled_from(raw@, vars@, now@, i + 1))
                    =~= out@ + filled_from(raw@, vars@, now@, i + 1));
                i = i + 1;
            },
        }
    }
    assert(out@ + filled_from(raw@, vars@, now@, i as int) =~= out@);
    Ok(out)
}

/// Substitutes `{{var}}` placeholders. Supplied variables win over builtins;
/// any other unresolved placeholder is an error that lists all of them.
pub fn render_template(raw: &str, vars: &StrMap<String>) -> (r: Result<String, TacitusError>)
    ensures
        exists|at: Instant|
            is_moment(at) && is_clock(clock_at(at)) && text_outcome(r) == rendered(
                raw@,
                vars@,
                #[trigger] clock_at(at),
            ),
{
    let at = local_now();
    let now = clock_of(at);
    assert(now@ == clock_at(at));
    render_at(raw, vars, &now)
}

/// Where templates stand in a vault.
pub struct TemplateStore {
    pub dir: String,
}

/// Whether a template name is a bare file stem.
pub open spec fn is_bare_name(name: Seq<char>) -> bool {
    &&& name.len() > 0
    &&& next_char(name, '/', 0) == name.len()
    &&& next_char(name, '\\', 0) == name.len()
    &&& !holds(name, ".."@)
}

impl TemplateStore {
    pub fn new(vault_dir: &str) -> (r: Self)
        ensures
            r.dir@ == join_path(join_path(vault_dir@, ".tacitus"@), "templates"@),
    {
        let dir = path_join(vault_dir, ".tacitus");
        TemplateStore { dir: path_join(dir.as_str(), "templates") }
    }

    /// The file of a template. The name must be a bare file stem.
    pub fn file_of(&self, name: &str) -> (r: Result<String, TacitusError>)
        ensures
            match r {
                Ok(p) => is_bare_name(name@) && p@ == join_path(self.dir@, name@ + ".md"@),
                Err(e) => !is_bare_name(name@) && e@ == error(
                    "TEMPLATE_NOT_FOUND"@,
                    "Invalid template name "@ + debug_text(name@) + "."@,
                    "Use a bare template name from list_templates."@,
                ),
            },
    {
        let v = chars_of(name);
        let n: usize = v.len();
        let slash: usize = crate::text::find_char(&v, '/', 0);
        let back: usize = crate::text::find_char(&v, '\\', 0);
        if n == 0 || slash < n || back < n || str_holds(name, "..") {
            let mut reason = "Invalid template name ".to_owned();
            reason.append(quoted(name).as_str());
            reason.append(".");
            return Err(
                TacitusError::new(
                    "TEMPLATE_NOT_FOUND",
                    reason.as_str(),
                    "Use a bare template name from list_templates.",
                ),
            );
        }
        let mut file = name.to_owned();
        file.append(".md");
        Ok(path_join(self.dir.as_str(), file.as_str()))
    }

    /// The error for a template whose file cannot be read.
    pub fn missing(name: &str) -> (e: TacitusError)
        ensures
            e@ == error(
                "TEMPLATE_NOT_FOUND"@,
                "No template named "@ + debug_text(name@) + "."@,
                "Use list_templates to see available templates."@,
            ),
    {
        let mut reason = "No template named ".to_owned();
        reason.append(quoted(name).as_str());
        reason.append(".");
        TacitusError::new(
            "TEMPLATE_NOT_FOUND",
            reason.as_str(),
            "Use list_templates to see available templates.",
        )
    }
}

/// The templates of the files from `i` on that are Markdown files.
pub open spec fn templates_from(
    names: Seq<Seq<char>>,
    raws: Seq<Seq<char>>,
    i: int,
) -> Seq<TemplateView>
    decreases names.len() - i,
{
    if i < 0 || i >= names.len() {
        seq![]
    } else if is_markdown_name(names[i]) {
        seq![TemplateView { name: without_md(names[i]), vars: vars_of(raws[i]) }] + templates_from(
            names,
            raws,
            i + 1,
        )
    } else {
        templates_from(names, raws, i + 1)
    }
}

/// The order of templates at positions: by name.
pub open spec fn by_name(ts: Seq<TemplateView>) -> spec_fn(int, int) -> bool {
    |a: int, b: int| crate::order::before(ts[a].name, ts[b].name)
}

/// The templates of some files, by name.
pub open spec fn template_list(names: Seq<Seq<char>>, raws: Seq<Seq<char>>) -> Seq<TemplateView> {
    let ts = templates_from(names, raws, 0);
    stable_order(ts.len(), by_name(ts)).map_values(|k: int| ts[k])
}

/// The templates among the files of the template directory, given the names
/// and the contents of those that could be read, sorted by name.
pub fn list_templates(names: &Vec<String>, raws: &Vec<String>) -> (r: Vec<Template>)
    requires
        names@.len() == raws@.len(),
    ensures
        templates_view(r@) == template_list(texts(names@), texts(raws@)),
{
    let ghost ns = texts(names@);
    let ghost rs = texts(raws@);
    let mut found: Vec<Template> = Vec::new();
    let mut i: usize = 0;
    assert(templates_view(found@) =~= seq![]);
    while i < names.len()
        invariant
            i <= names@.len(),
            names@.len() == raws@.len(),
            ns == texts(names@),
            rs == texts(raws@),
            templates_from(ns, rs, 0) == templates_view(found@) + templates_from(ns, rs, i as int),
        decreases names@.len() - i,
    {
        if markdown_name(names[i].as_str()) {
            let t = Template {
                name: strip_md(names[i].as_str()),
                vars: template_vars(raws[i].as_str()),
            };
            let ghost tv = t@;
            let ghost prev = templates_view(found@);
            found.push(t);
            assert(templates_view(found@) =~= prev.push(tv));
            assert(prev + (seq![tv] + templates_from(ns, rs, i + 1)) =~= templates_view(found@)
                + templates_from(ns, rs, i + 1));
        }
        i = i + 1;
    }
    assert(templates_view(found@) + templates_from(ns, rs, i as int) =~= templates_view(found@));
    let ghost ts = templates_view(found@);
    let n: usize = found.len();
    let less = |a: usize, b: usize| -> (r: bool)
        requires
            a < n,
            b < n,
            n == found@.len(),
        ensures
            r == by_name(templates_view(found@))(a as int, b as int),
        { str_before(found[a].name.as_str(), found[b].name.as_str()) };
    let order = sort_positions(n, less, Ghost(by_name(ts)));
    let ghost want = template_list(ns, rs);
    let mut out: Vec<Template> = Vec::new();
    let mut k: usize = 0;
    while k < n
        invariant
            k <= n,
            n == found@.len(),
            order@.len() == n,
            ts == templates_view(found@),
            positions(order@) == stable_order(ts.len(), by_name(ts)),
            forall|a: int| 0 <= a < order@.len() ==> #[trigger] order@[a] < n,
            want == stable_order(ts.len(), by_name(ts)).map_values(|j: int| ts[j]),
            templates_view(out@) == want.take(k as int),
        decreases n - k,
    {
        let at: usize = order[k];
        assert(positions(order@)[k as int] == at as int);
        let t = Template { name: found[at].name.clone(), vars: copy_strings(&found[at].vars) };
        let ghost prev = templates_view(out@);
        assert(ts[at as int] == found@[at as int]@);
        assert(t@ == want[k as int]);
        out.push(t);
        assert(templates_view(out@) =~= prev.push(want[k as int]));
        assert(want.take(k + 1) =~= want.take(k as int).push(want[k as int]));
        k = k + 1;
    }
    assert(want.take(want.len() as int) =~= want);
    out
}

proof fn lemma_vars_onto(seen: Seq<Seq<char>>, names: Seq<Seq<char>>, k: int)
    requires
        0 <= k,
        seen.no_duplicates(),
    ensures
        vars_onto(seen, names, k).no_duplicates(),
        forall|v: Seq<char>| #[trigger]
            vars_onto(seen, names, k).contains(v) <==> seen.contains(v) || (!is_builtin(v)
                && exists|j: int| k <= j < names.len() && #[trigger] names[j] == v),
    decreases names.len() - k,
{
    if k < names.len() {
        if is_builtin(names[k]) || seen.contains(names[k]) {
            lemma_vars_onto(seen, names, k + 1);
        } else {
            let next = seen.push(names[k]);
            lemma_vars_onto(next, names, k + 1);
            assert forall|v: Seq<char>| next.contains(v) <==> seen.contains(v) || v == names[k] by {
                assert(next[seen.len() as int] == names[k]);
                if seen.contains(v) {
                    let m = choose|m: int| 0 <= m < seen.len() && seen[m] == v;
                    assert(next[m] == v);
                }
            }
        }
        assert forall|v: Seq<char>| #[trigger]
            vars_onto(seen, names, k).contains(v) <==> seen.contains(v) || (!is_builtin(v)
                && exists|j: int| k <= j < names.len() && #[trigger] names[j] == v) by {
            assert((exists|j: int| k <= j < names.len() && #[trigger] names[j] == v) <==> names[k]
                == v || (exists|j: int| k + 1 <= j < names.len() && #[trigger] names[j] == v));
        }
    }
}

/// The schema of a template holds each placeholder once, and no builtin.
pub proof fn law_template_vars(raw: Seq<char>)
    ensures
        vars_of(raw).no_duplicates(),
        forall|v: Seq<char>| #[trigger]
            vars_of(raw).contains(v) <==> names_from(raw, 0).contains(v) && !is_builtin(v),
{
    let names = names_from(raw, 0);
    lemma_vars_onto(seq![], names, 0);
    assert forall|v: Seq<char>| #[trigger]
        vars_of(raw).contains(v) <==> names.contains(v) && !is_builtin(v) by {
        assert(!Seq::<Seq<char>>::empty().contains(v));
        assert(names.contains(v) <==> exists|j: int| 0 <= j < names.len() && #[trigger] names[j] == v);
    }
}

proof fn lemma_missing(wanted: Seq<Seq<char>>, vars: Map<Seq<char>, String>, k: int)
    requires
        0 <= k,
    ensures
        forall|v: Seq<char>| #[trigger]
            missing_from(wanted, vars, k).contains(v) <==> !vars.contains_key(v) && exists|j: int|
                k <= j < wanted.len() && #[trigger] wanted[j] == v,
    decreases wanted.len() - k,
{
    if k < wanted.len() {
        lemma_missing(wanted, vars, k + 1);
        let rest = missing_from(wanted, vars, k + 1);
        assert forall|v: Seq<char>| #[trigger]
            missing_from(wanted, vars, k).contains(v) <==> !vars.contains_key(v) && exists|j: int|
                k <= j < wanted.len() && #[trigger] wanted[j] == v by {
            assert((exists|j: int| k <= j < wanted.len() && #[trigger] wanted[j] == v)
                <==> wanted[k] == v || (exists|j: int|
                k + 1 <= j < wanted.len() && #[trigger] wanted[j] == v));
            if !vars.contains_key(wanted[k]) {
                let all = seq![wanted[k]] + rest;
                assert(all[0] == wanted[k]);
                if rest.contains(v) {
                    let m = choose|m: int| 0 <= m < rest.len() && rest[m] == v;
                    assert(all[m + 1] == v);
                }
                if all.contains(v) && v != wanted[k] {
                    let m = choose|m: int| 0 <= m < all.len() && all[m] == v;
                    assert(rest[m - 1] == v);
                }
            }
        }
    } else {
        assert(missing_from(wanted, vars, k) =~= seq![]);
    }
}

/// A template renders exactly when every placeholder that does not fill itself
/// is supplied, and the clock never decides that.
pub proof fn law_render_needs_exactly_its_vars(
    raw: Seq<char>,
    vars: Map<Seq<char>, String>,
    now: ClockView,
)
    ensures
        rendered(raw, vars, now) is Ok <==> forall|v: Seq<char>| #[trigger]
            names_from(raw, 0).contains(v) && !is_builtin(v) ==> vars.contains_key(v),
        rendered(raw, vars, now) matches Err(e) ==> e.code == "MISSING_VARS"@,
{
    let wanted = vars_of(raw);
    let missing = missing_from(wanted, vars, 0);
    law_template_vars(raw);
    lemma_missing(wanted, vars, 0);
    if missing.len() > 0 {
        let v = missing[0];
        assert(missing.contains(v));
        let j = choose|j: int| 0 <= j < wanted.len() && #[trigger] wanted[j] == v;
        assert(wanted.contains(v));
        assert(names_from(raw, 0).contains(v) && !is_builtin(v));
    } else {
        assert forall|v: Seq<char>| #[trigger]
            names_from(raw, 0).contains(v) && !is_builtin(v) implies vars.contains_key(v) by {
            assert(wanted.contains(v));
            let j = choose|j: int| 0 <= j < wanted.len() && wanted[j] == v;
            assert(wanted[j] == v);
            assert(!missing.contains(v));
        }
    }
}

proof fn lemma_same_missing(
    wanted: Seq<Seq<char>>,
    a: Map<Seq<char>, String>,
    b: Map<Seq<char>, String>,
    k: int,
)
    requires
        forall|v: Seq<char>| #[trigger] a.contains_key(v) <==> b.contains_key(v),
    ensures
        missing_from(wanted, a, k) == missing_from(wanted, b, k),
    decreases wanted.len() - k,
{
    if 0 <= k < wanted.len() {
        lemma_same_missing(wanted, a, b, k + 1);
    }
}

proof fn lemma_same_filling(
    s: Seq<char>,
    a: Map<Seq<char>, String>,
    b: Map<Seq<char>, String>,
    now: ClockView,
    i: int,
)
    requires
        forall|v: Seq<char>| #[trigger] a.contains_key(v) <==> b.contains_key(v),
        forall|v: Seq<char>| #[trigger] a.contains_key(v) ==> a[v]@ == b[v]@,
    ensures
        filled_from(s, a, now, i) == filled_from(s, b, now, i),
    decreases s.len() - i,
{
    if 0 <= i < s.len() {
        match slot_at(s, i) {
            Some(p) => {
                if i < p.end <= s.len() {
                    lemma_same_filling(s, a, b, now, p.end);
                }
            },
            None => {
                lemma_same_filling(s, a, b, now, i + 1);
            },
        }
    }
}

/// What a template renders to rests on the texts of the variables alone.
pub proof fn lemma_same_rendering(
    raw: Seq<char>,
    a: Map<Seq<char>, String>,
    b: Map<Seq<char>, String>,
    now: ClockView,
)
    requires
        a.map_values(|s: String| s@) == b.map_values(|s: String| s@),
    ensures
        rendered(raw, a, now) == rendered(raw, b, now),
{
    let x = a.map_values(|s: String| s@);
    let y = b.map_values(|s: String| s@);
    assert(x.dom() =~= a.dom());
    assert(y.dom() =~= b.dom());
    assert forall|v: Seq<char>| #[trigger] a.contains_key(v) <==> b.contains_key(v) by {
        assert(a.dom().contains(v) == b.dom().contains(v));
    }
    assert forall|v: Seq<char>| #[trigger] a.contains_key(v) implies a[v]@ == b[v]@ by {
        assert(x[v] == y[v]);
    }
    lemma_same_missing(vars_of(raw), a, b, 0);
    lemma_same_filling(raw, a, b, now, 0);
}

// ---------------------------------------------------------------------------
// What rendering does to a text
// ---------------------------------------------------------------------------

proof fn lemma_name_end_is(s: Seq<char>, i: int, j: int)
    requires
        0 <= i <= j <= s.len(),
        forall|k: int| i <= k < j ==> is_name_char(#[trigger] s[k]),
        j < s.len() ==> !is_name_char(s[j]),
    ensures
        name_end(s, i) == j,
    decreases j - i,
{
    if i < j {
        lemma_name_end_is(s, i + 1, j);
    }
}

proof fn lemma_skip_white_is(s: Seq<char>, i: int, j: int)
    requires
        0 <= i <= j <= s.len(),
        forall|k: int| i <= k < j ==> is_white(#[trigger] s[k]),
        j < s.len() ==> !is_white(s[j]),
    ensures
        skip_white(s, i) == j,
    decreases j - i,
{
    if i < j {
        lemma_skip_white_is(s, i + 1, j);
    }
}

proof fn lemma_name_end(s: Seq<char>, i: int)
    requires
        0 <= i <= s.len(),
    ensures
        i <= name_end(s, i) <= s.len(),
        forall|k: int| i <= k < name_end(s, i) ==> is_name_char(#[trigger] s[k]),
        name_end(s, i) < s.len() ==> !is_name_char(s[name_end(s, i)]),
    decreases s.len() - i,
{
    if i < s.len() && is_name_char(s[i]) {
        lemma_name_end(s, i + 1);
    }
}

/// What can stand in a placeholder: a name, with white space around it.
pub open spec fn is_slot(left: Seq<char>, name: Seq<char>, right: Seq<char>) -> bool {
    &&& name.len() > 0
    &&& forall|k: int| 0 <= k < name.len() ==> is_name_char(#[trigger] name[k])
    &&& forall|k: int| 0 <= k < left.len() ==> is_white(#[trigger] left[k])
    &&& forall|k: int| 0 <= k < right.len() ==> is_white(#[trigger] right[k])
}

/// A placeholder: two braces, a name with white space around it, two braces.
pub open spec fn slot_text(left: Seq<char>, name: Seq<char>, right: Seq<char>) -> Seq<char> {
    seq!['{', '{'] + left + name + right + seq!['}', '}']
}

proof fn lemma_name_is_dark(c: char)
    requires
        is_name_char(c),
    ensures
        !is_white(c),
        c != '}',
{
}

proof fn lemma_slot_read(
    early: Seq<char>,
    left: Seq<char>,
    name: Seq<char>,
    right: Seq<char>,
    rest: Seq<char>,
)
    requires
        is_slot(left, name, right),
    ensures
        ({
            let s = early + slot_text(left, name, right) + rest;
            let n: int = early.len() as int;
            let from = n + 2 + left.len();
            let end = from + name.len() + right.len() + 2;
            &&& slot_at(s, n) == Some(Slot { from, to: from + name.len(), end })
            &&& s.subrange(from, from + name.len()) == name
            &&& end == n + slot_text(left, name, right).len()
            &&& s.skip(end) == rest
            &&& end <= s.len()
        }),
{
    let s = early + slot_text(left, name, right) + rest;
    let n: int = early.len() as int;
    let from: int = n + 2 + left.len();
    let to: int = from + name.len();
    let end: int = to + right.len();
    assert(s[n] == '{' && s[n + 1] == '{');
    assert forall|k: int| n + 2 <= k < from implies is_white(#[trigger] s[k]) by {
        assert(s[k] == left[k - n - 2]);
    }
    assert forall|k: int| from <= k < to implies is_name_char(#[trigger] s[k]) by {
        assert(s[k] == name[k - from]);
    }
    assert forall|k: int| to <= k < end implies is_white(#[trigger] s[k]) by {
        assert(s[k] == right[k - to]);
    }
    assert(s[end] == '}' && s[end + 1] == '}');
    assert(is_name_char(s[from]));
    lemma_name_is_dark(s[from]);
    lemma_skip_white_is(s, n + 2, from);
    if end > to {
        assert(is_white(s[to]));
    }
    lemma_name_end_is(s, from, to);
    lemma_skip_white_is(s, to, end);
    assert(s.subrange(from, to) =~= name);
    assert(s.skip(end + 2) =~= rest);
}

proof fn lemma_slot_shift(a: Seq<char>, b: Seq<char>, i: int)
    requires
        0 <= i <= b.len(),
    ensures
        slot_at(a + b, a.len() + i) == match slot_at(b, i) {
            Some(p) => Some(
                Slot { from: a.len() + p.from, to: a.len() + p.to, end: a.len() + p.end },
            ),
            None => None,
        },
        slot_at(b, i) matches Some(p) ==> i < p.from < p.to < p.end <= b.len(),
{
    let s = a + b;
    let n: int = a.len() as int;
    if i + 2 <= b.len() {
        assert(s[n + i] == b[i] && s[n + i + 1] == b[i + 1]);
        lemma_skip_white(b, i + 2);
        let from = skip_white(b, i + 2);
        assert forall|k: int| n + i + 2 <= k < n + from implies is_white(#[trigger] s[k]) by {
            assert(s[k] == b[k - n]);
        }
        if from < b.len() {
            assert(s[n + from] == b[from]);
        }
        lemma_skip_white_is(s, n + i + 2, n + from);
        lemma_name_end(b, from);
        let to = name_end(b, from);
        assert forall|k: int| n + from <= k < n + to implies is_name_char(#[trigger] s[k]) by {
            assert(s[k] == b[k - n]);
        }
        if to < b.len() {
            assert(s[n + to] == b[to]);
        }
        lemma_name_end_is(s, n + from, n + to);
        lemma_skip_white(b, to);
        let end = skip_white(b, to);
        assert forall|k: int| n + to <= k < n + end implies is_white(#[trigger] s[k]) by {
            assert(s[k] == b[k - n]);
        }
        if end < b.len() {
            assert(s[n + end] == b[end]);
        }
        lemma_skip_white_is(s, n + to, n + end);
        if end + 2 <= b.len() {
            assert(s[n + end + 1] == b[end + 1]);
        }
    }
}

proof fn lemma_filled_shift(
    a: Seq<char>,
    b: Seq<char>,
    vars: Map<Seq<char>, String>,
    now: ClockView,
    i: int,
)
    requires
        0 <= i <= b.len(),
    ensures
        filled_from(a + b, vars, now, a.len() + i) == filled_from(b, vars, now, i),
        names_from(a + b, a.len() + i) == names_from(b, i),
    decreases b.len() - i,
{
    if i < b.len() {
        let s = a + b;
        let n: int = a.len() as int;
        lemma_slot_shift(a, b, i);
        match slot_at(b, i) {
            Some(p) => {
                assert(s.subrange(n + p.from, n + p.to) =~= b.subrange(p.from, p.to));
                lemma_filled_shift(a, b, vars, now, p.end);
            },
            None => {
                assert(s[n + i] == b[i]);
                lemma_filled_shift(a, b, vars, now, i + 1);
            },
        }
    }
}

proof fn lemma_filled_plain(
    s: Seq<char>,
    vars: Map<Seq<char>, String>,
    now: ClockView,
    i: int,
    n: int,
)
    requires
        0 <= i <= n <= s.len(),
        forall|k: int| i <= k < n ==> #[trigger] s[k] != '{',
    ensures
        filled_from(s, vars, now, i) == s.subrange(i, n) + filled_from(s, vars, now, n),
        names_from(s, i) == names_from(s, n),
    decreases n - i,
{
    if i < n {
        assert(s[i] != '{');
        lemma_filled_plain(s, vars, now, i + 1, n);
        assert(seq![s[i]] + (s.subrange(i + 1, n) + filled_from(s, vars, now, n)) =~= s.subrange(
            i,
            n,
        ) + filled_from(s, vars, now, n));
    } else {
        assert(s.subrange(i, n) + filled_from(s, vars, now, n) =~= filled_from(s, vars, now, n));
    }
}

/// A placeholder is filled where it stands: the text before it stays, its value comes
/// in its place, and the text behind it is filled on its own. The value is the
/// supplied one, whatever the name; where none is supplied, the clock fills in the
/// date, the time or both.
pub proof fn law_a_placeholder_is_filled_in_place(
    early: Seq<char>,
    left: Seq<char>,
    name: Seq<char>,
    right: Seq<char>,
    rest: Seq<char>,
    vars: Map<Seq<char>, String>,
    now: ClockView,
)
    requires
        forall|k: int| 0 <= k < early.len() ==> #[trigger] early[k] != '{',
        is_slot(left, name, right),
    ensures
        ({
            let raw = early + slot_text(left, name, right) + rest;
            let filled = filled_from(raw, vars, now, 0);
            let behind = filled_from(rest, vars, now, 0);
            &&& vars.contains_key(name) ==> filled == early + vars[name]@ + behind
            &&& !vars.contains_key(name) && name == "date"@ ==> filled == early + now.date + behind
            &&& !vars.contains_key(name) && name == "time"@ ==> filled == early + now.time + behind
            &&& !vars.contains_key(name) && name == "datetime"@ ==> filled == early + now.datetime
                + behind
            &&& names_from(raw, 0) == seq![name] + names_from(rest, 0)
        }),
{
    reveal_strlit("date");
    reveal_strlit("time");
    reveal_strlit("datetime");
    assert("date"@ != "time"@) by {
        assert("date"@[0] != "time"@[0]);
    }
    assert("datetime"@.len() == 8);
    let raw = early + slot_text(left, name, right) + rest;
    let n: int = early.len() as int;
    let front = early + slot_text(left, name, right);
    assert forall|k: int| 0 <= k < n implies #[trigger] raw[k] != '{' by {
        assert(raw[k] == early[k]);
    }
    lemma_filled_plain(raw, vars, now, 0, n);
    assert(raw.subrange(0, n) =~= early);
    lemma_slot_read(early, left, name, right, rest);
    lemma_filled_shift(front, rest, vars, now, 0);
    let value = var_value(name, vars, now);
    let behind = filled_from(rest, vars, now, 0);
    assert(early + (value + behind) =~= early + value + behind);
}

/// A text without braces is its own rendering and needs no variable.
pub proof fn law_plain_text_renders_as_it_is(
    raw: Seq<char>,
    vars: Map<Seq<char>, String>,
    now: ClockView,
)
    requires
        forall|k: int| 0 <= k < raw.len() ==> #[trigger] raw[k] != '{',
    ensures
        rendered(raw, vars, now) == Ok::<Seq<char>, ErrorView>(raw),
        vars_of(raw).len() == 0,
{
    let n: int = raw.len() as int;
    lemma_filled_plain(raw, vars, now, 0, n);
    assert(raw.subrange(0, n) + filled_from(raw, vars, now, n) =~= raw);
    assert(names_from(raw, n) =~= seq![]);
    assert(vars_of(raw) =~= seq![]);
    assert(missing_from(vars_of(raw), vars, 0) =~= seq![]);
}

/// A template that cannot be rendered says what it lacks: exactly the variables of the
/// template that were not supplied, in the order in which they first appear.
pub proof fn law_a_refusal_names_what_is_missing(
    raw: Seq<char>,
    vars: Map<Seq<char>, String>,
    now: ClockView,
    v: Seq<char>,
)
    requires
        rendered(raw, vars, now) is Err,
    ensures
        exists|missing: Seq<Seq<char>>|
            {
                &&& (#[trigger] missing.contains(v)) <==> names_from(raw, 0).contains(v)
                    && !is_builtin(v) && !vars.contains_key(v)
                &&& rendered(raw, vars, now)->Err_0.reason == "Template requires vars: "@ + join(
                    missing,
                    ", "@,
                ) + "."@
            },
{
    let wanted = vars_of(raw);
    let missing = missing_from(wanted, vars, 0);
    lemma_missing(wanted, vars, 0);
    law_template_vars(raw);
    assert(wanted.contains(v) <==> exists|j: int| 0 <= j < wanted.len() && #[trigger] wanted[j] == v);
    assert(missing.contains(v) <==> names_from(raw, 0).contains(v) && !is_builtin(v)
        && !vars.contains_key(v));
}

proof fn lemma_templates_has(names: Seq<Seq<char>>, raws: Seq<Seq<char>>, i: int, t: TemplateView)
    requires
        0 <= i,
    ensures
        templates_from(names, raws, i).contains(t) <==> exists|k: int|
            i <= k < names.len() && is_markdown_name(#[trigger] names[k]) && t.name == without_md(
                names[k],
            ) && t.vars == vars_of(raws[k]),
    decreases names.len() - i,
{
    if i < names.len() {
        lemma_templates_has(names, raws, i + 1, t);
        let rest = templates_from(names, raws, i + 1);
        if is_markdown_name(names[i]) {
            let first = TemplateView { name: without_md(names[i]), vars: vars_of(raws[i]) };
            let all = seq![first] + rest;
            assert(all[0] == first);
            if rest.contains(t) {
                let a = choose|a: int| 0 <= a < rest.len() && rest[a] == t;
                assert(all[a + 1] == t);
            }
            if all.contains(t) && t != first {
                let a = choose|a: int| 0 <= a < all.len() && all[a] == t;
                assert(rest[a - 1] == t);
            }
        }
    }
}

/// The list of templates: one for each Markdown file, under its name without the
/// extension and with its variables, in the order of names.
pub proof fn law_templates_are_the_markdown_files(
    names: Seq<Seq<char>>,
    raws: Seq<Seq<char>>,
    t: TemplateView,
)
    ensures
        template_list(names, raws).contains(t) <==> exists|k: int|
            0 <= k < names.len() && is_markdown_name(#[trigger] names[k]) && t.name == without_md(
                names[k],
            ) && t.vars == vars_of(raws[k]),
        forall|a: int, b: int|
            0 <= a < b < template_list(names, raws).len() ==> {
                let x = (#[trigger] template_list(names, raws)[a]).name;
                let y = (#[trigger] template_list(names, raws)[b]).name;
                x == y || crate::order::before(x, y)
            },
{
    let ts = templates_from(names, raws, 0);
    let less = by_name(ts);
    let order = stable_order(ts.len(), less);
    let out = template_list(names, raws);
    lemma_templates_has(names, raws, 0, t);
    lemma_stable_order_range(ts.len(), less);
    if out.contains(t) {
        let a = choose|a: int| 0 <= a < out.len() && out[a] == t;
        assert(ts[order[a]] == t);
    }
    if ts.contains(t) {
        let k = choose|k: int| 0 <= k < ts.len() && ts[k] == t;
        lemma_stable_order_has(ts.len(), less, k);
        let a = choose|a: int| 0 <= a < order.len() && order[a] == k;
        assert(out[a] == t);
    }
    assert forall|i: int, j: int| 0 <= i < ts.len() && 0 <= j < ts.len() && #[trigger] less(
        i,
        j,
    ) implies !less(j, i) by {
        lemma_before_asym(ts[i].name, ts[j].name);
    }
    assert forall|i: int, j: int, k: int|
        0 <= i < ts.len() && 0 <= j < ts.len() && 0 <= k < ts.len() && #[trigger] less(
            i,
            k,
        ) implies #[trigger] less(i, j) || less(j, k) by {
        if !less(i, j) && !less(j, k) {
            if less(j, i) {
                lemma_before_trans(ts[j].name, ts[i].name, ts[k].name);
            } else {
                lemma_before_total(ts[i].name, ts[j].name);
            }
        }
    }
    assert(weak_order(ts.len(), less));
    law_stable_order(ts.len(), less);
    assert forall|a: int, b: int| 0 <= a < b < out.len() implies {
        let x = (#[trigger] out[a]).name;
        let y = (#[trigger] out[b]).name;
        x == y || crate::order::before(x, y)
    } by {
        assert(!less(order[b], order[a]));
        if !less(order[a], order[b]) {
            lemma_before_total(out[a].name, out[b].name);
        }
    }
}

} // verus!
