use vstd::prelude::*;
use crate::error::{ErrorKind, ParsingError};
use crate::grammar::{parse_model, tags_of, EntryModel};
use crate::parser::parse_entries;
use crate::scanner::chars_of;

verus! {

/// The tags of an entry, as text.
pub open spec fn tags_view(t: Seq<(&str, &str)>) -> Seq<(Seq<char>, Seq<char>)> {
    t.map_values(|p: (&str, &str)| (p.0@, p.1@))
}

/// The entries of a bibliography file, in the order in which they appear.
#[derive(Debug, PartialEq, Eq)]
pub struct Bibtex<'a> {
    entries: Vec<Entry<'a>>,
}

/// An entry of a bibliography file: a comment, a preamble kept for later
/// output, a string variable, or a bibliography record.
#[derive(Debug, PartialEq, Eq)]
pub enum Entry<'a> {
    /// The text between the delimiters of `@preamble`, verbatim: fragments
    /// joined by `#` are kept as written, `#` included, rather than joined
    /// into a new string, so that the text stays a slice of the input.
    Preamble(&'a str),
    Comment(&'a str),
    Variable(&'a str, &'a str),
    Bibliography(BibliographyEntry<'a>),
}

/// A bibliography record.
#[derive(Debug, PartialEq, Eq)]
pub struct BibliographyEntry<'a> {
    /// The type of the record, as written: *misc*, *article*, *manual*, ...
    pub entry_type: &'a str,
    /// The key by which a document cites the record.
    pub citation_key: &'a str,
    /// The characteristics of the record (*author*, *title*, *year*, ...)
    /// in the order in which they were written.
    tags: Vec<(&'a str, &'a str)>,
}

impl<'a> View for BibliographyEntry<'a> {
    type V = EntryModel;

    closed spec fn view(&self) -> EntryModel {
        EntryModel::Bibliography(self.entry_type@, self.citation_key@, tags_view(self.tags@))
    }
}

impl<'a> View for Entry<'a> {
    type V = EntryModel;

    open spec fn view(&self) -> EntryModel {
        match self {
            Entry::Preamble(p) => EntryModel::Preamble(p@),
            Entry::Comment(c) => EntryModel::Comment(c@),
            Entry::Variable(n, v) => EntryModel::Variable(n@, v@),
            Entry::Bibliography(b) => b@,
        }
    }
}

/// The entries of a list, as the grammar states them.
pub open spec fn entries_view<'a>(v: Seq<Entry<'a>>) -> Seq<EntryModel> {
    v.map_values(|e: Entry<'a>| e@)
}

impl<'a> View for Bibtex<'a> {
    type V = Seq<EntryModel>;

    closed spec fn view(&self) -> Seq<EntryModel> {
        entries_view(self.entries@)
    }
}

impl<'a> Bibtex<'a> {
    pub fn new(entries: Vec<Entry<'a>>) -> (r: Self)
        ensures
            r@ == entries_view(entries@),
    {
        Self { entries }
    }

    /// Parses the whole content of a bibliography file. Each text field of
    /// the result is a slice of `bibtex`.
    pub fn parse(bibtex: &'a str) -> (r: Result<Self, ParsingError>)
        ensures
            match r {
                Ok(b) => parse_model(bibtex@) == Ok::<Seq<EntryModel>, ErrorKind>(b@),
                Err(e) => parse_model(bibtex@) == Err::<Seq<EntryModel>, ErrorKind>(e.kind),
            },
    {
        let cs = chars_of(bibtex);
        match parse_entries(bibtex, &cs) {
            Ok(v) => Ok(Bibtex::new(v)),
            Err(e) => Err(ParsingError::new(e)),
        }
    }

    /// All the entries, in file order.
    pub fn entries(&self) -> (r: &Vec<Entry<'a>>)
        ensures
            entries_view(r@) == self@,
    {
        &self.entries
    }
}

impl<'a> BibliographyEntry<'a> {
    pub fn new(entry_type: &'a str, citation_key: &'a str, tags: Vec<(&'a str, &'a str)>) -> (r:
        Self)
        ensures
            r@ == EntryModel::Bibliography(entry_type@, citation_key@, tags_view(tags@)),
    {
        BibliographyEntry { entry_type, citation_key, tags }
    }

    /// The tags of the record, in the order in which they were written.
    pub fn tags(&self) -> (r: &Vec<(&'a str, &'a str)>)
        ensures
            tags_of(self@) == tags_view(r@),
    {
        &self.tags
    }
}

} // verus!
