//! The memory data model.
use crate::text::{copy_opt, copy_strings, opt_text, str_eq, texts};
use vstd::prelude::*;
use vstd::string::*;

verus! {

/// What a memory is about.
#[derive(Clone, Copy, Debug, PartialEq, Eq, Structural)]
pub enum MemoryType {
    User,
    Feedback,
    Project,
    Reference,
}

/// Who wrote a memory down.
#[derive(Clone, Copy, Debug, PartialEq, Eq, Structural)]
pub enum Author {
    Human,
    Agent,
}

impl MemoryType {
    /// The name of the type.
    pub open spec fn name(self) -> Seq<char> {
        match self {
            MemoryType::User => "user"@,
            MemoryType::Feedback => "feedback"@,
            MemoryType::Project => "project"@,
            MemoryType::Reference => "reference"@,
        }
    }

    /// The type that a name stands for.
    pub open spec fn named(name: Seq<char>) -> Option<MemoryType> {
        if name == "user"@ {
            Some(MemoryType::User)
        } else if name == "feedback"@ {
            Some(MemoryType::Feedback)
        } else if name == "project"@ {
            Some(MemoryType::Project)
        } else if name == "reference"@ {
            Some(MemoryType::Reference)
        } else {
            None
        }
    }

    /// The type of a name.
    pub fn parse(name: &str) -> (r: Option<MemoryType>)
        ensures
            r == MemoryType::named(name@),
    {
        if str_eq(name, "user") {
            Some(MemoryType::User)
        } else if str_eq(name, "feedback") {
            Some(MemoryType::Feedback)
        } else if str_eq(name, "project") {
            Some(MemoryType::Project)
        } else if str_eq(name, "reference") {
            Some(MemoryType::Reference)
        } else {
            None
        }
    }

    pub fn as_str(&self) -> (r: &'static str)
        ensures
            r@ == self.name(),
    {
        match self {
            MemoryType::User => "user",
            MemoryType::Feedback => "feedback",
            MemoryType::Project => "project",
            MemoryType::Reference => "reference",
        }
    }
}

impl Author {
    /// The name of the author.
    pub open spec fn name(self) -> Seq<char> {
        match self {
            Author::Human => "human"@,
            Author::Agent => "agent"@,
        }
    }

    /// The author that a name stands for.
    pub open spec fn named(name: Seq<char>) -> Option<Author> {
        if name == "human"@ {
            Some(Author::Human)
        } else if name == "agent"@ {
            Some(Author::Agent)
        } else {
            None
        }
    }

    /// The author of a name.
    pub fn parse(name: &str) -> (r: Option<Author>)
        ensures
            r == Author::named(name@),
    {
        if str_eq(name, "human") {
            Some(Author::Human)
        } else if str_eq(name, "agent") {
            Some(Author::Agent)
        } else {
            None
        }
    }

    pub fn as_str(&self) -> (r: &'static str)
        ensures
            r@ == self.name(),
    {
        match self {
            Author::Human => "human",
            Author::Agent => "agent",
        }
    }
}

/// Reading the name of a memory type or of an author gives it back.
pub proof fn law_names_read_back(t: MemoryType, a: Author)
    ensures
        MemoryType::named(t.name()) == Some(t),
        Author::named(a.name()) == Some(a),
{
    reveal_strlit("user");
    reveal_strlit("feedback");
    reveal_strlit("project");
    reveal_strlit("reference");
    reveal_strlit("human");
    reveal_strlit("agent");
    assert("user"@[0] == 'u' && "feedback"@[0] == 'f' && "project"@[0] == 'p' && "reference"@[0]
        == 'r' && "human"@[0] == 'h' && "agent"@[0] == 'a');
}

/// Where a memory comes from.
#[derive(Debug, PartialEq, Eq)]
pub struct Provenance {
    pub origin: String,
    pub author: Author,
    pub timestamp: String,
}

/// One memory.
#[derive(Debug, PartialEq, Eq)]
pub struct Memory {
    pub id: String,
    pub memory_type: MemoryType,
    pub content: String,
    pub tags: Vec<String>,
    pub key: Option<String>,
    pub source: Provenance,
    pub ttl: Option<u64>,
}

/// The model of a provenance.
#[verifier::ext_equal]
pub struct ProvenanceView {
    pub origin: Seq<char>,
    pub author: Author,
    pub timestamp: Seq<char>,
}

/// The model of a memory.
#[verifier::ext_equal]
pub struct MemoryView {
    pub id: Seq<char>,
    pub memory_type: MemoryType,
    pub content: Seq<char>,
    pub tags: Seq<Seq<char>>,
    pub key: Option<Seq<char>>,
    pub source: ProvenanceView,
    pub ttl: Option<u64>,
}

impl View for Provenance {
    type V = ProvenanceView;

    open spec fn view(&self) -> ProvenanceView {
        ProvenanceView {
            origin: self.origin@,
            author: self.author,
            timestamp: self.timestamp@,
        }
    }
}

impl View for Memory {
    type V = MemoryView;

    open spec fn view(&self) -> MemoryView {
        MemoryView {
            id: self.id@,
            memory_type: self.memory_type,
            content: self.content@,
            tags: texts(self.tags@),
            key: opt_text(self.key),
            source: self.source@,
            ttl: self.ttl,
        }
    }
}

/// The model of a list of memories.
pub open spec fn memories_view(v: Seq<Memory>) -> Seq<MemoryView> {
    v.map_values(|m: Memory| m@)
}

impl Clone for Provenance {
    fn clone(&self) -> (r: Self)
        ensures
            r@ == self@,
    {
        Provenance {
            origin: self.origin.clone(),
            author: self.author,
            timestamp: self.timestamp.clone(),
        }
    }
}

impl Clone for Memory {
    fn clone(&self) -> (r: Self)
        ensures
            r@ == self@,
    {
        Memory {
            id: self.id.clone(),
            memory_type: self.memory_type,
            content: self.content.clone(),
            tags: copy_strings(&self.tags),
            key: copy_opt(&self.key),
            source: self.source.clone(),
            ttl: self.ttl,
        }
    }
}

} // verus!
