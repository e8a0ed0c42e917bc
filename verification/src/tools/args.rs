//! The arguments of the tools.
use crate::vault::json::Json;
use crate::vault::suggest::Rating;
use vstd::prelude::*;

verus! {

pub struct SourceArg {
    pub origin: String,
    pub author: String,
    pub timestamp: Option<String>,
}

pub struct RememberArgs {
    pub content: String,
    pub memory_type: String,
    pub tags: Vec<String>,
    pub key: Option<String>,
    pub source: Option<SourceArg>,
    pub ttl: Option<u64>,
}

pub struct RecallQuery {
    pub query: String,
    pub memory_type: Option<String>,
    pub token_budget: Option<usize>,
}

pub struct ForgetArgs {
    pub memory_id: String,
}

pub struct SearchToolArgs {
    pub query: String,
    /// `lexical`, `semantic` or `hybrid`. Each is answered by lexical search.
    pub mode: Option<String>,
    pub token_budget: Option<usize>,
    pub top_k: Option<usize>,
}

pub struct GetNoteArgs {
    pub note_id: String,
    pub format: Option<String>,
    pub max_tokens: Option<usize>,
}

pub struct GraphArgs {
    pub from: String,
    pub relation: String,
    pub depth: Option<usize>,
}

pub struct SuggestLinksArgs {
    pub note_id: String,
    /// The most suggestions.
    pub top_k: Option<usize>,
    pub token_budget: Option<usize>,
    /// How each candidate was rated; none for one below the least score.
    pub ratings: Vec<Option<Rating>>,
}

pub struct ChangeOpArg {
    pub op: String,
    pub note_id: String,
    pub content: Option<String>,
    pub frontmatter: Option<Json>,
}

pub struct ProposeArgs {
    pub ops: Vec<ChangeOpArg>,
}

pub struct CommitArgs {
    pub change_id: String,
}

pub struct RevertArgs {
    pub version_id: String,
}

pub struct CreateNoteArgs {
    pub note_id: String,
    pub content: String,
    pub frontmatter: Option<Json>,
}

pub struct UpdateNoteArgs {
    pub note_id: String,
    pub content: Option<String>,
    pub frontmatter: Option<Json>,
}

pub struct LinkArgs {
    pub from: String,
    pub to: String,
}

pub struct TagArgs {
    pub note_id: String,
    pub tag: String,
}

pub struct AuditArgs {
    pub limit: Option<usize>,
}

pub struct PropFilterArg {
    pub key: String,
    /// eq | ne | contains | exists | not_exists | gt | lt | gte | lte
    pub op: String,
    pub value: Option<Json>,
}

pub struct PropertiesArgs {
    pub filters: Vec<PropFilterArg>,
    pub select: Option<Vec<String>>,
    pub sort_by: Option<String>,
    pub descending: Option<bool>,
    pub limit: Option<usize>,
    pub token_budget: Option<usize>,
}

pub struct CreateFromTemplateArgs {
    /// A template name from list_templates.
    pub template: String,
    pub note_id: String,
    /// The values of the placeholders. Scalars only.
    pub vars: Option<Json>,
}

pub struct ListTasksArgs {
    /// `false` for open tasks, `true` for done ones, all where it is absent.
    pub done: Option<bool>,
    /// Only tasks due strictly before this date.
    pub due_before: Option<String>,
    /// Only tasks due on or after this date.
    pub due_after: Option<String>,
    pub tag: Option<String>,
    pub note_id: Option<String>,
    pub limit: Option<usize>,
    pub token_budget: Option<usize>,
}

pub struct ToggleTaskArgs {
    pub note_id: String,
    /// The line of the task, as list_tasks gave it.
    pub line: usize,
    /// The text of the task, as list_tasks gave it.
    pub expect_text: String,
}

pub struct RenameNoteArgs {
    pub from: String,
    pub to: String,
}

pub struct GetVersionArgs {
    pub version_id: String,
    /// Whether to add the contents of each note before and after.
    pub include_content: Option<bool>,
    /// The ceiling of tokens of each content.
    pub max_tokens: Option<usize>,
}

pub struct DeleteNoteArgs {
    pub note_id: String,
}

} // verus!
