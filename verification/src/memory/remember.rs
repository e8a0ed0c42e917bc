//! Writing a memory down, with mandatory provenance.
use crate::error::{error, ErrorView, TacitusError};
use crate::ids::{id_text, stable_id};
use crate::memory::types::{
    law_names_read_back, Author, Memory, MemoryType, MemoryView, Provenance, ProvenanceView,
};
use crate::text::{debug_text, opt_text, quoted, texts};
use vstd::prelude::*;
use vstd::string::*;

verus! {

/// Provenance as a caller gives it: `timestamp` may be omitted, and is then stamped.
pub struct ProvenanceInput {
    pub origin: String,
    pub author: String,
    pub timestamp: Option<String>,
}

/// What a caller gives to `remember`. Provenance is optional in the type, so
/// that its absence is answered with its own error.
pub struct RememberInput {
    pub content: String,
    pub memory_type: String,
    pub tags: Vec<String>,
    pub key: Option<String>,
    pub source: Option<ProvenanceInput>,
    pub ttl: Option<u64>,
}

/// The model of a given provenance.
#[verifier::ext_equal]
pub struct ProvenanceInputView {
    pub origin: Seq<char>,
    pub author: Seq<char>,
    pub timestamp: Option<Seq<char>>,
}

/// The model of what a caller gives.
#[verifier::ext_equal]
pub struct RememberInputView {
    pub content: Seq<char>,
    pub memory_type: Seq<char>,
    pub tags: Seq<Seq<char>>,
    pub key: Option<Seq<char>>,
    pub source: Option<ProvenanceInputView>,
    pub ttl: Option<u64>,
}

impl View for ProvenanceInput {
    type V = ProvenanceInputView;

    open spec fn view(&self) -> ProvenanceInputView {
        ProvenanceInputView {
            origin: self.origin@,
            author: self.author@,
            timestamp: opt_text(self.timestamp),
        }
    }
}

impl View for RememberInput {
    type V = RememberInputView;

    open spec fn view(&self) -> RememberInputView {
        RememberInputView {
            content: self.content@,
            memory_type: self.memory_type@,
            tags: texts(self.tags@),
            key: opt_text(self.key),
            source: match self.source {
                Some(s) => Some(s@),
                None => None,
            },
            ttl: self.ttl,
        }
    }
}

/// The model of what `remember` returns.
pub open spec fn memory_outcome(r: Result<Memory, TacitusError>) -> Result<MemoryView, ErrorView> {
    match r {
        Ok(m) => Ok(m@),
        Err(e) => Err(e@),
    }
}

/// The seed of a memory's id: everything that identifies it, and no timestamp.
pub open spec fn memory_seed(
    memory_type: MemoryType,
    key: Option<Seq<char>>,
    content: Seq<char>,
    origin: Seq<char>,
    author: Author,
) -> Seq<char> {
    let k = match key {
        Some(k) => k,
        None => seq![],
    };
    memory_type.name() + " "@ + k + " "@ + content + " "@ + origin + " "@ + author.name()
}

pub open spec fn missing_provenance() -> ErrorView {
    error(
        "MISSING_PROVENANCE"@,
        "A memory must carry its source (provenance)."@,
        "Provide source: { origin, author: \"human\"|\"agent\", timestamp? }."@,
    )
}

pub open spec fn invalid_type(given: Seq<char>) -> ErrorView {
    error(
        "INVALID_TYPE"@,
        "type must be one of user|feedback|project|reference (got "@ + debug_text(given) + ")."@,
        "Use a valid memory type."@,
    )
}

pub open spec fn invalid_author() -> ErrorView {
    error(
        "INVALID_INPUT"@,
        "source.author must be \"human\" or \"agent\"."@,
        "Fix the author field and retry."@,
    )
}

pub open spec fn empty_content() -> ErrorView {
    error(
        "INVALID_INPUT"@,
        "content must be a non-empty string."@,
        "Provide non-empty content."@,
    )
}

pub open spec fn empty_origin() -> ErrorView {
    error(
        "INVALID_INPUT"@,
        "source.origin must be a non-empty string."@,
        "Provide a provenance origin."@,
    )
}

/// What `remember` returns at the time `now`: the first check that fails
/// decides the error, in this order.
pub open spec fn remembered(input: RememberInputView, now: Seq<char>) -> Result<
    MemoryView,
    ErrorView,
> {
    match input.source {
        None => Err(missing_provenance()),
        Some(source) => match MemoryType::named(input.memory_type) {
            None => Err(invalid_type(input.memory_type)),
            Some(memory_type) => match Author::named(source.author) {
                None => Err(invalid_author()),
                Some(author) => if input.content.len() == 0 {
                    Err(empty_content())
                } else if source.origin.len() == 0 {
                    Err(empty_origin())
                } else {
                    Ok(
                        MemoryView {
                            id: id_text(
                                memory_seed(
                                    memory_type,
                                    input.key,
                                    input.content,
                                    source.origin,
                                    author,
                                ),
                                "mem"@,
                            ),
                            memory_type,
                            content: input.content,
                            tags: input.tags,
                            key: input.key,
                            source: ProvenanceView {
                                origin: source.origin,
                                author,
                                timestamp: match source.timestamp {
                                    Some(ts) => if ts.len() > 0 {
                                        ts
                                    } else {
                                        now
                                    },
                                    None => now,
                                },
                            },
                            ttl: input.ttl,
                        },
                    )
                },
            },
        },
    }
}

/// The current time in UTC (`chrono::Utc::now`), as RFC 3339 text. What it is
/// depends on the clock; it is never empty.
#[verifier::external_body]
pub(crate) fn utc_now() -> (r: String)
    ensures
        r@.len() > 0,
{
    chrono::Utc::now().to_rfc3339()
}

/// Validates an input, enforces provenance, and returns the memory with a
/// stable id, stamped with `now` where the input has no timestamp.
pub fn remember_at(input: RememberInput, now: &str) -> (r: Result<Memory, TacitusError>)
    ensures
        memory_outcome(r) == remembered(input@, now@),
{
    let source = match input.source {
        Some(s) => s,
        None => {
            return Err(
                TacitusError::new(
                    "MISSING_PROVENANCE",
                    "A memory must carry its source (provenance).",
                    "Provide source: { origin, author: \"human\"|\"agent\", timestamp? }.",
                ),
            );
        },
    };
    let memory_type = match MemoryType::parse(input.memory_type.as_str()) {
        Some(t) => t,
        None => {
            let mut reason = "type must be one of user|feedback|project|reference (got ".to_owned();
            reason.append(quoted(input.memory_type.as_str()).as_str());
            reason.append(").");
            return Err(
                TacitusError::new("INVALID_TYPE", reason.as_str(), "Use a valid memory type."),
            );
        },
    };
    let author = match Author::parse(source.author.as_str()) {
        Some(a) => a,
        None => {
            return Err(
                TacitusError::new(
                    "INVALID_INPUT",
                    "source.author must be \"human\" or \"agent\".",
                    "Fix the author field and retry.",
                ),
            );
        },
    };
    if input.content.as_str().is_empty() {
        return Err(
            TacitusError::new(
                "INVALID_INPUT",
                "content must be a non-empty string.",
                "Provide non-empty content.",
            ),
        );
    }
    if source.origin.as_str().is_empty() {
        return Err(
            TacitusError::new(
                "INVALID_INPUT",
                "source.origin must be a non-empty string.",
                "Provide a provenance origin.",
            ),
        );
    }
    let timestamp = match source.timestamp {
        Some(ts) => if ts.as_str().is_empty() {
            now.to_owned()
        } else {
            ts
        },
        None => now.to_owned(),
    };
    let mut seed = memory_type.as_str().to_owned();
    seed.append(" ");
    match &input.key {
        Some(k) => seed.append(k.as_str()),
        None => {},
    }
    seed.append(" ");
    seed.append(input.content.as_str());
    seed.append(" ");
    seed.append(source.origin.as_str());
    seed.append(" ");
    seed.append(author.as_str());
    assert(seed@ =~= memory_seed(
        memory_type,
        opt_text(input.key),
        input.content@,
        source.origin@,
        author,
    ));
    let id = stable_id(seed.as_str(), "mem");
    Ok(
        Memory {
            id,
            memory_type,
            content: input.content,
            tags: input.tags,
            key: input.key,
            source: Provenance { origin: source.origin, author, timestamp },
            ttl: input.ttl,
        },
    )
}

/// Validates an input, enforces provenance, and returns the memory with a
/// stable id. The clock decides nothing but the stamp of an input without one.
pub fn remember(input: RememberInput) -> (r: Result<Memory, TacitusError>)
    ensures
        exists|now: Seq<char>|
            now.len() > 0 && memory_outcome(r) == #[trigger] remembered(input@, now),
{
    let now = utc_now();
    remember_at(input, now.as_str())
}

/// Remembering is idempotent: the same content and source give the same id,
/// whenever it happens and whatever the timestamps are.
pub proof fn law_remember_ids_ignore_time(
    a: RememberInputView,
    b: RememberInputView,
    first: Seq<char>,
    second: Seq<char>,
)
    requires
        a.memory_type == b.memory_type,
        a.key == b.key,
        a.content == b.content,
        a.source is Some,
        b.source is Some,
        a.source->0.origin == b.source->0.origin,
        a.source->0.author == b.source->0.author,
        remembered(a, first) is Ok,
    ensures
        remembered(b, second) is Ok,
        remembered(a, first)->Ok_0.id == remembered(b, second)->Ok_0.id,
{
}

/// Every fact carries its source: without one nothing is remembered, and what is
/// remembered has the origin and the author that were given, and a time.
pub proof fn law_every_fact_carries_its_source(input: RememberInputView, now: Seq<char>)
    requires
        now.len() > 0,
    ensures
        input.source is None ==> remembered(input, now) == Err::<MemoryView, ErrorView>(
            missing_provenance(),
        ),
        remembered(input, now) matches Ok(m) ==> input.source is Some && m.source.origin
            == input.source->0.origin && m.source.origin.len() > 0 && Author::named(
            input.source->0.author,
        ) == Some(m.source.author) && m.source.timestamp.len() > 0,
{
}

/// What is remembered is what was given: the content, the tags, the key and the time to
/// live as they are, the type by its name, and the time that was given, or else the
/// time of the call.
pub proof fn law_a_memory_is_what_was_given(input: RememberInputView, now: Seq<char>)
    requires
        remembered(input, now) is Ok,
    ensures
        ({
            let m = remembered(input, now)->Ok_0;
            let s = input.source->0;
            &&& m.content == input.content
            &&& m.tags == input.tags
            &&& m.key == input.key
            &&& m.ttl == input.ttl
            &&& m.memory_type.name() == input.memory_type
            &&& m.source.author.name() == s.author
            &&& m.source.origin == s.origin
            &&& s.timestamp is Some && s.timestamp->0.len() > 0 ==> m.source.timestamp
                == s.timestamp->0
            &&& s.timestamp is None || s.timestamp->0.len() == 0 ==> m.source.timestamp == now
        }),
{
}

/// What is refused: a memory without a source, of an unknown type, by an unknown author,
/// without content or without an origin. All else is remembered.
pub proof fn law_only_unsound_memories_are_refused(input: RememberInputView, now: Seq<char>)
    ensures
        remembered(input, now) is Ok <==> {
            &&& input.source is Some
            &&& exists|t: MemoryType| #[trigger] t.name() == input.memory_type
            &&& exists|a: Author| #[trigger] a.name() == input.source->0.author
            &&& input.content.len() > 0
            &&& input.source->0.origin.len() > 0
        },
        input.source is None ==> remembered(input, now)->Err_0.code == "MISSING_PROVENANCE"@,
        input.source is Some && !(exists|t: MemoryType| #[trigger] t.name() == input.memory_type)
            ==> remembered(input, now)->Err_0.code == "INVALID_TYPE"@,
        input.source is Some && (exists|t: MemoryType| #[trigger] t.name() == input.memory_type)
            && remembered(input, now) is Err ==> remembered(input, now)->Err_0.code
            == "INVALID_INPUT"@,
{
    reveal_strlit("user");
    reveal_strlit("feedback");
    reveal_strlit("project");
    reveal_strlit("reference");
    reveal_strlit("human");
    reveal_strlit("agent");
    let given = input.memory_type;
    if let Some(t) = MemoryType::named(given) {
        assert(t.name() == given);
    }
    if exists|t: MemoryType| #[trigger] t.name() == given {
        let t = choose|t: MemoryType| #[trigger] t.name() == given;
        law_names_read_back(t, Author::Human);
    }
    if let Some(s) = input.source {
        if let Some(a) = Author::named(s.author) {
            assert(a.name() == s.author);
        }
        if exists|a: Author| #[trigger] a.name() == s.author {
            let a = choose|a: Author| #[trigger] a.name() == s.author;
            law_names_read_back(MemoryType::User, a);
        }
    }
}

/// The id of a memory comes from its type, its key, its content, its origin and its
/// author: with the others the same and of one length, two that differ give two texts.
pub proof fn law_an_id_shows_what_identifies(
    memory_type: MemoryType,
    key: Option<Seq<char>>,
    content: Seq<char>,
    origin: Seq<char>,
    author: Author,
    other: Seq<char>,
)
    ensures
        content.len() == other.len() && memory_seed(memory_type, key, content, origin, author)
            == memory_seed(memory_type, key, other, origin, author) ==> content == other,
        origin.len() == other.len() && memory_seed(memory_type, key, content, origin, author)
            == memory_seed(memory_type, key, content, other, author) ==> origin == other,
        key is Some && key->0.len() == other.len() && memory_seed(
            memory_type,
            key,
            content,
            origin,
            author,
        ) == memory_seed(memory_type, Some(other), content, origin, author) ==> key->0 == other,
{
    let a = memory_seed(memory_type, key, content, origin, author);
    let k = match key {
        Some(k) => k,
        None => seq![],
    };
    reveal_strlit(" ");
    let sep = " "@;
    let n1: int = memory_type.name().len() as int + sep.len();
    let n2: int = n1 + k.len() + sep.len();
    let n3: int = n2 + content.len() + sep.len();
    assert(a.subrange(n1, n1 + k.len()) =~= k);
    assert(a.subrange(n2, n2 + content.len()) =~= content);
    assert(a.subrange(n3, n3 + origin.len()) =~= origin);
    if content.len() == other.len() {
        let b = memory_seed(memory_type, key, other, origin, author);
        assert(b.subrange(n2, n2 + other.len()) =~= other);
    }
    if origin.len() == other.len() {
        let b = memory_seed(memory_type, key, content, other, author);
        assert(b.subrange(n3, n3 + other.len()) =~= other);
    }
    if key is Some && k.len() == other.len() {
        let b = memory_seed(memory_type, Some(other), content, origin, author);
        assert(b.subrange(n1, n1 + other.len()) =~= other);
    }
}

} // verus!
