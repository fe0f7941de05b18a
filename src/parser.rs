use vstd::prelude::*;
use crate::error::ErrorKind;
use crate::grammar::{
    bibliography_at, body_at, entries_from, entry_at, field_at, keyword_eq, parse_model, tags_from,
    variable_at, EntryModel,
};
use crate::model::{entries_view, tags_view, BibliographyEntry, Entry};
use crate::scanner::{
    find_at, find_group_close, keyword_matches, scan_ident, scan_value, skip_whitespace,
};

verus! {

/// A field result as the grammar states it.
pub open spec fn field_view(r: Result<(usize, usize, usize, usize), ErrorKind>) -> Result<
    (int, int, int, int),
    ErrorKind,
> {
    match r {
        Ok((a, b, c, d)) => Ok((a as int, b as int, c as int, d as int)),
        Err(e) => Err(e),
    }
}

/// An entry result as the grammar states it.
pub open spec fn entry_res_view<'a>(r: Result<(Entry<'a>, usize), ErrorKind>) -> Result<
    (EntryModel, int),
    ErrorKind,
> {
    match r {
        Ok((e, c)) => Ok((e@, c as int)),
        Err(x) => Err(x),
    }
}

/// The tags `acc` put before those of a tag-list result.
pub open spec fn tags_after(
    acc: Seq<(Seq<char>, Seq<char>)>,
    r: Result<(Seq<(Seq<char>, Seq<char>)>, int), ErrorKind>,
) -> Result<(Seq<(Seq<char>, Seq<char>)>, int), ErrorKind> {
    match r {
        Ok((t, c)) => Ok((acc + t, c)),
        Err(e) => Err(e),
    }
}

/// The entries `acc` put before those of an entry-list result.
pub open spec fn entries_after(acc: Seq<EntryModel>, r: Result<Seq<EntryModel>, ErrorKind>) -> Result<
    Seq<EntryModel>,
    ErrorKind,
> {
    match r {
        Ok(t) => Ok(acc + t),
        Err(e) => Err(e),
    }
}

/// Reads a field `key = value` whose key starts at `i`.
pub fn parse_field(cs: &Vec<char>, i: usize) -> (r: Result<(usize, usize, usize, usize), ErrorKind>)
    requires
        i <= cs.len(),
    ensures
        field_view(r) == field_at(cs@, i as int),
        r matches Ok((ke, vs, ve, n)) ==> i < ke <= vs <= ve <= n <= cs.len(),
{
    let ke = match scan_ident(cs, i) {
        Ok(k) => k,
        Err(e) => return Err(e),
    };
    let q = skip_whitespace(cs, ke);
    if q >= cs.len() {
        return Err(ErrorKind::Incomplete);
    }
    if cs[q] != '=' {
        return Err(ErrorKind::Syntax);
    }
    let v = skip_whitespace(cs, q + 1);
    match scan_value(cs, v) {
        Ok((vs, ve, vn)) => Ok((ke, vs, ve, skip_whitespace(cs, vn))),
        Err(e) => Err(e),
    }
}

/// Reads the tags that follow a comma, from `i` up to the delimiter `close`.
pub fn parse_tags<'a>(s: &'a str, cs: &Vec<char>, i: usize, close: char) -> (r: Result<
    (Vec<(&'a str, &'a str)>, usize),
    ErrorKind,
>)
    requires
        cs@ == s@,
        i <= cs.len(),
    ensures
        match r {
            Ok((t, c)) => tags_from(cs@, i as int, close) == Ok::<
                (Seq<(Seq<char>, Seq<char>)>, int),
                ErrorKind,
            >((tags_view(t@), c as int)) && i <= c < cs.len(),
            Err(e) => tags_from(cs@, i as int, close) == Err::<
                (Seq<(Seq<char>, Seq<char>)>, int),
                ErrorKind,
            >(e),
        },
{
    let mut tags: Vec<(&'a str, &'a str)> = Vec::new();
    let mut j = i;
    assert(tags_view(tags@) =~= seq![]);
    assert(tags_after(seq![], tags_from(cs@, i as int, close)) == tags_from(cs@, i as int, close))
        by {
        match tags_from(cs@, i as int, close) {
            Ok((t, c)) => {
                assert(Seq::<(Seq<char>, Seq<char>)>::empty() + t =~= t);
            },
            Err(_) => {},
        }
    }
    loop
        invariant
            cs@ == s@,
            i <= j <= cs.len(),
            tags_from(cs@, i as int, close) == tags_after(
                tags_view(tags@),
                tags_from(cs@, j as int, close),
            ),
        decreases cs.len() - j,
    {
        let p = skip_whitespace(cs, j);
        if p >= cs.len() {
            return Err(ErrorKind::Incomplete);
        }
        if cs[p] == close {
            assert(tags_view(tags@) + seq![] =~= tags_view(tags@));
            return Ok((tags, p));
        }
        let (ke, vs, ve, n) = match parse_field(cs, p) {
            Ok(f) => f,
            Err(e) => return Err(e),
        };
        let tag = (s.substring_char(p, ke), s.substring_char(vs, ve));
        if n >= cs.len() {
            return Err(ErrorKind::Incomplete);
        }
        let ghost before = tags_view(tags@);
        let ghost tv = (tag.0@, tag.1@);
        if cs[n] == close {
            tags.push(tag);
            assert(tags_view(tags@) =~= before.push(tv));
            assert(before + seq![tv] =~= before.push(tv));
            return Ok((tags, n));
        } else if cs[n] == ',' {
            tags.push(tag);
            assert(tags_view(tags@) =~= before.push(tv));
            j = n + 1;
            proof {
                match tags_from(cs@, j as int, close) {
                    Ok((t, c)) => {
                        assert(before + (seq![tv] + t) =~= before.push(tv) + t);
                    },
                    Err(_) => {},
                }
            }
        } else {
            return Err(ErrorKind::Syntax);
        }
    }
}

/// Reads the body of a bibliography record of type `kw` from `i` on.
pub fn parse_bibliography<'a>(s: &'a str, cs: &Vec<char>, i: usize, kw: &'a str, close: char) -> (r:
    Result<(Entry<'a>, usize), ErrorKind>)
    requires
        cs@ == s@,
        i <= cs.len(),
    ensures
        entry_res_view(r) == bibliography_at(cs@, i as int, kw@, close),
        r matches Ok((_, c)) ==> i <= c < cs.len(),
{
    let k = skip_whitespace(cs, i);
    let ke = match scan_ident(cs, k) {
        Ok(x) => x,
        Err(e) => return Err(e),
    };
    let p = skip_whitespace(cs, ke);
    let key = s.substring_char(k, ke);
    if p >= cs.len() {
        Err(ErrorKind::Incomplete)
    } else if cs[p] == close {
        let b = BibliographyEntry::new(kw, key, Vec::new());
        assert(tags_view(Seq::<(&str, &str)>::empty()) =~= seq![]);
        Ok((Entry::Bibliography(b), p))
    } else if cs[p] == ',' {
        match parse_tags(s, cs, p + 1, close) {
            Ok((t, c)) => Ok((Entry::Bibliography(BibliographyEntry::new(kw, key, t)), c)),
            Err(e) => Err(e),
        }
    } else {
        Err(ErrorKind::Syntax)
    }
}

/// Reads the body `name = value` of a string variable from `i` on.
pub fn parse_variable<'a>(s: &'a str, cs: &Vec<char>, i: usize, close: char) -> (r: Result<
    (Entry<'a>, usize),
    ErrorKind,
>)
    requires
        cs@ == s@,
        i <= cs.len(),
    ensures
        entry_res_view(r) == variable_at(cs@, i as int, close),
        r matches Ok((_, c)) ==> i <= c < cs.len(),
{
    let n = skip_whitespace(cs, i);
    let (ne, vs, ve, c) = match parse_field(cs, n) {
        Ok(f) => f,
        Err(e) => return Err(e),
    };
    if c >= cs.len() {
        Err(ErrorKind::Incomplete)
    } else if cs[c] != close {
        Err(ErrorKind::Syntax)
    } else {
        Ok((Entry::Variable(s.substring_char(n, ne), s.substring_char(vs, ve)), c))
    }
}

/// Reads the body of an entry whose keyword `kw` stands from `kf` to `kt`.
pub fn parse_body<'a>(
    s: &'a str,
    cs: &Vec<char>,
    i: usize,
    kw: &'a str,
    kf: usize,
    kt: usize,
    close: char,
) -> (r: Result<(Entry<'a>, usize), ErrorKind>)
    requires
        cs@ == s@,
        i <= cs.len(),
        kf <= kt <= cs.len(),
        kw@ == cs@.subrange(kf as int, kt as int),
    ensures
        entry_res_view(r) == body_at(cs@, i as int, kw@, close),
        r matches Ok((_, c)) ==> i <= c < cs.len(),
{
    let is_comment = keyword_matches(cs, kf, kt, "comment");
    let is_preamble = keyword_matches(cs, kf, kt, "preamble");
    if is_comment || is_preamble {
        match find_group_close(cs, i, close) {
            Ok(c) => {
                let t = s.substring_char(i, c);
                if is_comment {
                    Ok((Entry::Comment(t), c))
                } else {
                    Ok((Entry::Preamble(t), c))
                }
            },
            Err(e) => Err(e),
        }
    } else if keyword_matches(cs, kf, kt, "string") {
        parse_variable(s, cs, i, close)
    } else {
        parse_bibliography(s, cs, i, kw, close)
    }
}

/// Reads the entry whose keyword follows an `@` just before `i`.
pub fn parse_entry<'a>(s: &'a str, cs: &Vec<char>, i: usize) -> (r: Result<(Entry<'a>, usize), ErrorKind>)
    requires
        cs@ == s@,
        i <= cs.len(),
    ensures
        entry_res_view(r) == entry_at(cs@, i as int),
        r matches Ok((_, n)) ==> i < n <= cs.len(),
{
    let k = skip_whitespace(cs, i);
    let ke = match scan_ident(cs, k) {
        Ok(x) => x,
        Err(e) => return Err(e),
    };
    let o = skip_whitespace(cs, ke);
    if o >= cs.len() {
        return Err(ErrorKind::Incomplete);
    }
    if cs[o] != '{' && cs[o] != '(' {
        return Err(ErrorKind::Syntax);
    }
    let close = if cs[o] == '{' {
        '}'
    } else {
        ')'
    };
    let kw = s.substring_char(k, ke);
    match parse_body(s, cs, o + 1, kw, k, ke, close) {
        Ok((e, c)) => Ok((e, c + 1)),
        Err(e) => Err(e),
    }
}

/// Reads all the entries of the text; text outside entries is skipped.
pub fn parse_entries<'a>(s: &'a str, cs: &Vec<char>) -> (r: Result<Vec<Entry<'a>>, ErrorKind>)
    requires
        cs@ == s@,
    ensures
        match r {
            Ok(v) => parse_model(cs@) == Ok::<Seq<EntryModel>, ErrorKind>(entries_view(v@)),
            Err(e) => parse_model(cs@) == Err::<Seq<EntryModel>, ErrorKind>(e),
        },
{
    let mut v: Vec<Entry<'a>> = Vec::new();
    let mut i: usize = 0;
    assert(entries_after(entries_view(v@), entries_from(cs@, 0)) == entries_from(cs@, 0)) by {
        assert(entries_view(v@) =~= seq![]);
        match entries_from(cs@, 0) {
            Ok(t) => {
                assert(Seq::<EntryModel>::empty() + t =~= t);
            },
            Err(_) => {},
        }
    }
    loop
        invariant
            cs@ == s@,
            i <= cs.len(),
            entries_from(cs@, 0) == entries_after(entries_view(v@), entries_from(cs@, i as int)),
        decreases cs.len() - i,
    {
        let a = find_at(cs, i);
        if a >= cs.len() {
            assert(entries_view(v@) + seq![] =~= entries_view(v@));
            return Ok(v);
        }
        let ghost before = entries_view(v@);
        match parse_entry(s, cs, a + 1) {
            Err(e) => return Err(e),
            Ok((e, n)) => {
                let ghost ev = e@;
                v.push(e);
                assert(entries_view(v@) =~= before.push(ev));
                i = n;
                proof {
                    match entries_from(cs@, i as int) {
                        Ok(t) => {
                            assert(before + (seq![ev] + t) =~= before.push(ev) + t);
                        },
                        Err(_) => {},
                    }
                }
            },
        }
    }
}

} // verus!
