use nom_bibtex::error::{ErrorKind, ParsingError};
use nom_bibtex::model::{BibliographyEntry, Bibtex, Entry};

fn kind_of(input: &str) -> ErrorKind {
    match Bibtex::parse(input) {
        Ok(_) => panic!("expected an error for {:?}", input),
        Err(e) => e.kind,
    }
}

#[test]
fn empty_input_has_no_entries() {
    let b = Bibtex::parse("").unwrap();
    assert_eq!(b.entries().len(), 0);
    let b = Bibtex::parse("just some text, no entries\n").unwrap();
    assert_eq!(b.entries().len(), 0);
}

#[test]
fn entries_keep_file_order_and_skip_free_text() {
    let input = "intro text\n@string{a = \"x\"}\nmiddle\n@comment{c}\n@misc{k}\ntrailing";
    let b = Bibtex::parse(input).unwrap();
    assert_eq!(
        b.entries(),
        &vec![
            Entry::Variable("a", "x"),
            Entry::Comment("c"),
            Entry::Bibliography(BibliographyEntry::new("misc", "k", vec![])),
        ]
    );
}

#[test]
fn comment_keeps_nested_braces() {
    let b = Bibtex::parse("@comment{anything with {nested} braces}").unwrap();
    assert_eq!(b.entries(), &vec![Entry::Comment("anything with {nested} braces")]);
}

#[test]
fn string_variable() {
    let b = Bibtex::parse("@string{abc = \"value\"}").unwrap();
    assert_eq!(b.entries(), &vec![Entry::Variable("abc", "value")]);
}

#[test]
fn article_with_tags() {
    let b = Bibtex::parse("@article{key1, title = {A {B} C}, year = 2020}").unwrap();
    assert_eq!(b.entries().len(), 1);
    match &b.entries()[0] {
        Entry::Bibliography(e) => {
            assert_eq!(e.entry_type, "article");
            assert_eq!(e.citation_key, "key1");
            assert_eq!(e.tags(), &vec![("title", "A {B} C"), ("year", "2020")]);
        }
        other => panic!("unexpected entry {:?}", other),
    }
}

#[test]
fn trailing_comma_is_accepted() {
    let with = Bibtex::parse("@misc{k, a=1,}").unwrap();
    let without = Bibtex::parse("@misc{k, a=1}").unwrap();
    assert_eq!(with, without);
    assert_eq!(
        with.entries(),
        &vec![Entry::Bibliography(BibliographyEntry::new("misc", "k", vec![("a", "1")]))]
    );
}

#[test]
fn unbalanced_brace_is_incomplete() {
    assert_eq!(kind_of("@misc{k, title = {A {B} C}"), ErrorKind::Incomplete);
    assert_eq!(kind_of("@comment{never closed"), ErrorKind::Incomplete);
    assert_eq!(kind_of("@misc"), ErrorKind::Incomplete);
    assert_eq!(kind_of("@misc{k, a = \"open"), ErrorKind::Incomplete);
}

#[test]
fn stray_character_is_syntax_error() {
    assert_eq!(kind_of("@misc{k a=1}"), ErrorKind::Syntax);
    assert_eq!(kind_of("@misc{k, a 1}"), ErrorKind::Syntax);
    assert_eq!(kind_of("@misc{k, a=1)"), ErrorKind::Syntax);
    assert_eq!(kind_of("@misc[k]"), ErrorKind::Syntax);
    assert_eq!(kind_of("@{k}"), ErrorKind::Syntax);
}

#[test]
fn reparsing_gives_equal_documents() {
    let input = "@string{v = {x}}\n@book{b1, author = \"A. Author\", title = v}\n";
    let first = Bibtex::parse(input).unwrap();
    let second = Bibtex::parse(input).unwrap();
    assert_eq!(first, second);
    assert_eq!(first.entries().len(), 2);
}

#[test]
fn reserved_keywords_ignore_case() {
    for input in ["@STRING{a = 1}", "@String{a = 1}", "@string{a = 1}", "@sTrInG{a = 1}"] {
        let b = Bibtex::parse(input).unwrap();
        assert_eq!(b.entries(), &vec![Entry::Variable("a", "1")]);
    }
    let b = Bibtex::parse("@COMMENT{x} @Preamble{\"p\"}").unwrap();
    assert_eq!(b.entries(), &vec![Entry::Comment("x"), Entry::Preamble("\"p\"")]);
}

#[test]
fn entry_type_case_is_kept() {
    let b = Bibtex::parse("@Article{k}\n@article{k}").unwrap();
    assert_eq!(
        b.entries(),
        &vec![
            Entry::Bibliography(BibliographyEntry::new("Article", "k", vec![])),
            Entry::Bibliography(BibliographyEntry::new("article", "k", vec![])),
        ]
    );
}

#[test]
fn parenthesized_entries() {
    let b = Bibtex::parse("@misc(k, note = {a (b) c})\n@comment(x {y} z)").unwrap();
    assert_eq!(
        b.entries(),
        &vec![
            Entry::Bibliography(BibliographyEntry::new("misc", "k", vec![("note", "a (b) c")])),
            Entry::Comment("x {y} z"),
        ]
    );
}

#[test]
fn quoted_values_and_whitespace() {
    let input = "@ misc { k ,\n  title = \"say \\\"hi\\\" {x\" ,\n  month = jan\n}";
    let b = Bibtex::parse(input).unwrap();
    assert_eq!(
        b.entries(),
        &vec![Entry::Bibliography(BibliographyEntry::new(
            "misc",
            "k",
            vec![("title", "say \\\"hi\\\" {x"), ("month", "jan")]
        ))]
    );
}

#[test]
fn preamble_keeps_its_text() {
    let b = Bibtex::parse("@preamble{\"\\makeatletter\" # \"x\"}").unwrap();
    assert_eq!(b.entries(), &vec![Entry::Preamble("\"\\makeatletter\" # \"x\"")]);
}

#[test]
fn duplicate_tags_are_kept() {
    let b = Bibtex::parse("@misc{k, a = 1, a = 2}").unwrap();
    match &b.entries()[0] {
        Entry::Bibliography(e) => assert_eq!(e.tags(), &vec![("a", "1"), ("a", "2")]),
        other => panic!("unexpected entry {:?}", other),
    }
}

#[test]
fn non_ascii_text_is_sliced_by_characters() {
    let b = Bibtex::parse("é @misc{k, author = {Gödel}}").unwrap();
    assert_eq!(
        b.entries(),
        &vec![Entry::Bibliography(BibliographyEntry::new("misc", "k", vec![("author", "Gödel")]))]
    );
}

#[test]
fn constructors_and_accessors() {
    let e = BibliographyEntry::new("book", "key", vec![("title", "T")]);
    assert_eq!(e.entry_type, "book");
    assert_eq!(e.citation_key, "key");
    assert_eq!(e.tags(), &vec![("title", "T")]);
    let b = Bibtex::new(vec![Entry::Comment("c"), Entry::Bibliography(e)]);
    assert_eq!(b.entries().len(), 2);
    assert_eq!(b.entries()[0], Entry::Comment("c"));
}

#[test]
fn error_descriptions() {
    let inc = ParsingError::new(ErrorKind::Incomplete);
    let syn = ParsingError::new(ErrorKind::Syntax);
    assert_eq!(inc.kind, ErrorKind::Incomplete);
    assert!(inc.description().starts_with("incomplete"));
    assert!(syn.description().starts_with("syntax"));
}

#[test]
fn concatenated_texts_keep_both_entry_lists() {
    let a = "@string{x = 1} free text ";
    let b = "more text @misc{k, t = {v}}\n@comment{c}";
    let joined = format!("{}{}", a, b);
    let pa = Bibtex::parse(a).unwrap();
    let pb = Bibtex::parse(b).unwrap();
    let pj = Bibtex::parse(&joined).unwrap();
    assert_eq!(pj.entries().len(), pa.entries().len() + pb.entries().len());
    assert_eq!(pj.entries()[0], pa.entries()[0]);
    assert_eq!(pj.entries()[1], pb.entries()[0]);
    assert_eq!(pj.entries()[2], pb.entries()[1]);
    assert_eq!(pj.entries()[1], Entry::Bibliography(BibliographyEntry::new("misc", "k", vec![("t", "v")])));
}

#[test]
fn keyword_followed_by_letters_is_a_record_type() {
    let b = Bibtex::parse("@stringx{k}").unwrap();
    assert_eq!(
        b.entries(),
        &vec![Entry::Bibliography(BibliographyEntry::new("stringx", "k", vec![]))]
    );
}

#[test]
fn entry_without_tags_and_trailing_comma_after_key() {
    let b = Bibtex::parse("@misc{k,}").unwrap();
    assert_eq!(
        b.entries(),
        &vec![Entry::Bibliography(BibliographyEntry::new("misc", "k", vec![]))]
    );
}

#[test]
fn variable_reference_is_kept_raw() {
    let b = Bibtex::parse("@misc{k, journal = jcp}").unwrap();
    match &b.entries()[0] {
        Entry::Bibliography(e) => assert_eq!(e.tags(), &vec![("journal", "jcp")]),
        other => panic!("unexpected entry {:?}", other),
    }
}

#[test]
fn error_messages_name_the_failure() {
    let inc = match Bibtex::parse("@misc{k, title = {open") {
        Err(e) => e,
        Ok(_) => panic!("expected an error"),
    };
    assert_eq!(inc.kind, ErrorKind::Incomplete);
    assert_eq!(
        inc.description(),
        "incomplete input: the text ended before the open entry, group or quoted value was closed"
    );
    let syn = match Bibtex::parse("@misc{k a=1}") {
        Err(e) => e,
        Ok(_) => panic!("expected an error"),
    };
    assert_eq!(syn.kind, ErrorKind::Syntax);
    assert_eq!(
        syn.description(),
        "syntax error: an unexpected character stands where an identifier, '=', ',', a value or a closing delimiter was expected"
    );
}

#[test]
fn one_entry_per_construct_in_order() {
    let pieces = ["head @misc{a}", " x @string{v = 1} y ", "@comment{c} tail"];
    let joined: String = pieces.concat();
    let all = Bibtex::parse(&joined).unwrap();
    assert_eq!(all.entries().len(), pieces.len());
    for (i, p) in pieces.iter().enumerate() {
        let one = Bibtex::parse(p).unwrap();
        assert_eq!(one.entries().len(), 1);
        assert_eq!(all.entries()[i], one.entries()[0]);
    }
}
