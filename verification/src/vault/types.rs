//! A note as agents query it.
use crate::text::{copy_opt, copy_strings, opt_text, texts};
use crate::vault::value::{Yaml, YamlView};
use vstd::prelude::*;
use vstd::string::*;

verus! {

/// A heading of a note.
#[derive(Debug, PartialEq, Eq)]
pub struct Heading {
    pub level: usize,
    pub text: String,
    pub slug: String,
}

/// A wikilink of a note.
#[derive(Debug, PartialEq, Eq)]
pub struct WikiLink {
    pub target: String,
    pub heading: Option<String>,
    pub block: Option<String>,
    pub alias: Option<String>,
    pub raw: String,
}

/// A parsed note.
#[derive(Debug)]
pub struct Note {
    /// Stable id: the relative path without its extension, as in `projects/launch`.
    pub id: String,
    pub path: String,
    pub title: String,
    pub frontmatter: Yaml,
    pub content: String,
    pub headings: Vec<Heading>,
    pub links: Vec<WikiLink>,
    pub tags: Vec<String>,
}

/// The model of a heading.
#[verifier::ext_equal]
pub struct HeadingView {
    pub level: nat,
    pub text: Seq<char>,
    pub slug: Seq<char>,
}

/// The model of a wikilink.
#[verifier::ext_equal]
pub struct LinkView {
    pub target: Seq<char>,
    pub heading: Option<Seq<char>>,
    pub block: Option<Seq<char>>,
    pub alias: Option<Seq<char>>,
    pub raw: Seq<char>,
}

/// The model of a note.
#[verifier::ext_equal]
pub struct NoteView {
    pub id: Seq<char>,
    pub path: Seq<char>,
    pub title: Seq<char>,
    pub frontmatter: YamlView,
    pub content: Seq<char>,
    pub headings: Seq<HeadingView>,
    pub links: Seq<LinkView>,
    pub tags: Seq<Seq<char>>,
}

impl View for Heading {
    type V = HeadingView;

    open spec fn view(&self) -> HeadingView {
        HeadingView { level: self.level as nat, text: self.text@, slug: self.slug@ }
    }
}

impl View for WikiLink {
    type V = LinkView;

    open spec fn view(&self) -> LinkView {
        LinkView {
            target: self.target@,
            heading: opt_text(self.heading),
            block: opt_text(self.block),
            alias: opt_text(self.alias),
            raw: self.raw@,
        }
    }
}

pub open spec fn headings_view(v: Seq<Heading>) -> Seq<HeadingView> {
    v.map_values(|h: Heading| h@)
}

pub open spec fn links_view(v: Seq<WikiLink>) -> Seq<LinkView> {
    v.map_values(|l: WikiLink| l@)
}

impl View for Note {
    type V = NoteView;

    open spec fn view(&self) -> NoteView {
        NoteView {
            id: self.id@,
            path: self.path@,
            title: self.title@,
            frontmatter: self.frontmatter@,
            content: self.content@,
            headings: headings_view(self.headings@),
            links: links_view(self.links@),
            tags: texts(self.tags@),
        }
    }
}

pub open spec fn notes_view(v: Seq<Note>) -> Seq<NoteView> {
    v.map_values(|n: Note| n@)
}

impl Clone for Heading {
    fn clone(&self) -> (r: Self)
        ensures
            r@ == self@,
    {
        Heading { level: self.level, text: self.text.clone(), slug: self.slug.clone() }
    }
}

impl Clone for WikiLink {
    fn clone(&self) -> (r: Self)
        ensures
            r@ == self@,
    {
        WikiLink {
            target: self.target.clone(),
            heading: copy_opt(&self.heading),
            block: copy_opt(&self.block),
            alias: copy_opt(&self.alias),
            raw: self.raw.clone(),
        }
    }
}

impl Clone for Note {
    fn clone(&self) -> (r: Self)
        ensures
            r@ == self@,
    {
        let mut headings: Vec<Heading> = Vec::new();
        let mut i: usize = 0;
        while i < self.headings.len()
            invariant
                i <= self.headings@.len(),
                headings_view(headings@) == headings_view(self.headings@).take(i as int),
            decreases self.headings@.len() - i,
        {
            let ghost prev = headings_view(headings@);
            headings.push(self.headings[i].clone());
            assert(headings_view(headings@) =~= prev.push(self.headings@[i as int]@));
            assert(headings_view(self.headings@).take(i + 1) =~= prev.push(
                self.headings@[i as int]@,
            ));
            i = i + 1;
        }
        assert(headings_view(self.headings@).take(i as int) =~= headings_view(self.headings@));
        let mut links: Vec<WikiLink> = Vec::new();
        let mut j: usize = 0;
        while j < self.links.len()
            invariant
                j <= self.links@.len(),
                links_view(links@) == links_view(self.links@).take(j as int),
            decreases self.links@.len() - j,
        {
            let ghost prev = links_view(links@);
            links.push(self.links[j].clone());
            assert(links_view(links@) =~= prev.push(self.links@[j as int]@));
            assert(links_view(self.links@).take(j + 1) =~= prev.push(self.links@[j as int]@));
            j = j + 1;
        }
        assert(links_view(self.links@).take(j as int) =~= links_view(self.links@));
        Note {
            id: self.id.clone(),
            path: self.path.clone(),
            title: self.title.clone(),
            frontmatter: self.frontmatter.copy(),
            content: self.content.clone(),
            headings,
            links,
            tags: copy_strings(&self.tags),
        }
    }
}

} // verus!
