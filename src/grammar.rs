use vstd::prelude::*;
use crate::error::ErrorKind;

verus! {

/// What an entry of a bibliography file holds, as text.
pub enum EntryModel {
    Preamble(Seq<char>),
    Comment(Seq<char>),
    Variable(Seq<char>, Seq<char>),
    Bibliography(Seq<char>, Seq<char>, Seq<(Seq<char>, Seq<char>)>),
}

/// The tags of a bibliography record; none for another entry.
pub open spec fn tags_of(e: EntryModel) -> Seq<(Seq<char>, Seq<char>)> {
    match e {
        EntryModel::Bibliography(_, _, t) => t,
        _ => seq![],
    }
}

/// Whitespace, which separates tokens and is otherwise ignored.
pub open spec fn is_ws(c: char) -> bool {
    c == ' ' || c == '\t' || c == '\n' || c == '\r'
}

/// A character that may stand in an identifier: a keyword, a key, a tag name
/// or a bare value.
pub open spec fn is_ident_char(c: char) -> bool {
    ('a' <= c && c <= 'z') || ('A' <= c && c <= 'Z') || ('0' <= c && c <= '9') || c == '_'
        || c == '-' || c == ':' || c == '.' || c == '/' || c == '+' || c == '\''
}

/// `a` is `b` up to the case of an ASCII letter, where `b` is lower case.
pub open spec fn char_eq_ci(a: char, b: char) -> bool {
    a == b || ('a' <= b && b <= 'z' && 'A' <= a && a <= 'Z' && a as u32 + 32 == b as u32)
}

/// The keyword `kw` spells the lower-case word `w`, ignoring ASCII case.
pub open spec fn keyword_eq(kw: Seq<char>, w: Seq<char>) -> bool {
    kw.len() == w.len() && forall|j: int| 0 <= j < kw.len() ==> char_eq_ci(#[trigger] kw[j], w[j])
}

/// The first position at or after `i` that holds no whitespace.
pub open spec fn skip_ws(s: Seq<char>, i: int) -> int
    decreases s.len() - i,
{
    if 0 <= i < s.len() && is_ws(s[i]) {
        skip_ws(s, i + 1)
    } else {
        i
    }
}

/// The first position at or after `i` that holds no identifier character.
pub open spec fn ident_end(s: Seq<char>, i: int) -> int
    decreases s.len() - i,
{
    if 0 <= i < s.len() && is_ident_char(s[i]) {
        ident_end(s, i + 1)
    } else {
        i
    }
}

/// The first position at or after `i` that holds `@`, or the length.
pub open spec fn next_at(s: Seq<char>, i: int) -> int
    decreases s.len() - i,
{
    if 0 <= i < s.len() && s[i] != '@' {
        next_at(s, i + 1)
    } else {
        i
    }
}

/// The end of a non-empty identifier that starts at `i`. An identifier that
/// runs to the end of the text may go on in text not yet given.
pub open spec fn ident_at(s: Seq<char>, i: int) -> Result<int, ErrorKind> {
    if i < 0 || i >= s.len() {
        Err(ErrorKind::Incomplete)
    } else if !is_ident_char(s[i]) {
        Err(ErrorKind::Syntax)
    } else if ident_end(s, i) >= s.len() {
        Err(ErrorKind::Incomplete)
    } else {
        Ok(ident_end(s, i))
    }
}

/// The position of the delimiter `close` that ends a group whose content goes
/// on at `i`, with `depth` braces open inside the group.
pub open spec fn group_close(s: Seq<char>, i: int, depth: nat, close: char) -> Result<int, ErrorKind>
    decreases s.len() - i,
{
    if i < 0 || i >= s.len() {
        Err(ErrorKind::Incomplete)
    } else if s[i] == '{' {
        group_close(s, i + 1, depth + 1, close)
    } else if s[i] == '}' {
        if depth > 0 {
            group_close(s, i + 1, (depth - 1) as nat, close)
        } else if close == '}' {
            Ok(i)
        } else {
            Err(ErrorKind::Syntax)
        }
    } else if s[i] == close && depth == 0 {
        Ok(i)
    } else {
        group_close(s, i + 1, depth, close)
    }
}

/// The position of the quote that ends a quoted value whose content goes on
/// at `i`; a backslash escapes the character after it.
pub open spec fn quote_close(s: Seq<char>, i: int) -> Result<int, ErrorKind>
    decreases s.len() - i,
{
    if i < 0 || i >= s.len() {
        Err(ErrorKind::Incomplete)
    } else if s[i] == '"' {
        Ok(i)
    } else if s[i] == '\\' {
        if i + 1 < s.len() {
            quote_close(s, i + 2)
        } else {
            Err(ErrorKind::Incomplete)
        }
    } else {
        quote_close(s, i + 1)
    }
}

/// A value that starts at `i`: its content's start and end, and the position
/// after it.
pub open spec fn value_at(s: Seq<char>, i: int) -> Result<(int, int, int), ErrorKind> {
    if i < 0 || i >= s.len() {
        Err(ErrorKind::Incomplete)
    } else if s[i] == '{' {
        match group_close(s, i + 1, 0, '}') {
            Ok(j) => Ok((i + 1, j, j + 1)),
            Err(e) => Err(e),
        }
    } else if s[i] == '"' {
        match quote_close(s, i + 1) {
            Ok(j) => Ok((i + 1, j, j + 1)),
            Err(e) => Err(e),
        }
    } else {
        match ident_at(s, i) {
            Ok(j) => Ok((i, j, j)),
            Err(e) => Err(e),
        }
    }
}

/// A field `key = value` whose key starts at `i`: the key's end, the value's
/// content start and end, and the first position after the value that holds
/// no whitespace.
pub open spec fn field_at(s: Seq<char>, i: int) -> Result<(int, int, int, int), ErrorKind> {
    match ident_at(s, i) {
        Err(e) => Err(e),
        Ok(ke) => {
            let q = skip_ws(s, ke);
            if q >= s.len() {
                Err(ErrorKind::Incomplete)
            } else if s[q] != '=' {
                Err(ErrorKind::Syntax)
            } else {
                match value_at(s, skip_ws(s, q + 1)) {
                    Err(e) => Err(e),
                    Ok((vs, ve, vn)) => Ok((ke, vs, ve, skip_ws(s, vn))),
                }
            }
        }
    }
}

/// The tags that follow a comma, from `i` on, and the position of the
/// closing delimiter `close`.
pub open spec fn tags_from(s: Seq<char>, i: int, close: char) -> Result<
    (Seq<(Seq<char>, Seq<char>)>, int),
    ErrorKind,
>
    decreases s.len() - i,
{
    let p = skip_ws(s, i);
    if p < 0 || p >= s.len() {
        Err(ErrorKind::Incomplete)
    } else if s[p] == close {
        Ok((seq![], p))
    } else {
        match field_at(s, p) {
            Err(e) => Err(e),
            Ok((ke, vs, ve, r)) => {
                let tag = (s.subrange(p, ke), s.subrange(vs, ve));
                if r < 0 || r >= s.len() {
                    Err(ErrorKind::Incomplete)
                } else if s[r] == close {
                    Ok((seq![tag], r))
                } else if s[r] == ',' && r >= i {
                    match tags_from(s, r + 1, close) {
                        Ok((t, c)) => Ok((seq![tag] + t, c)),
                        Err(e) => Err(e),
                    }
                } else {
                    Err(ErrorKind::Syntax)
                }
            }
        }
    }
}

/// The body of a bibliography entry of type `kw` from `i` on, and the
/// position of its closing delimiter.
pub open spec fn bibliography_at(s: Seq<char>, i: int, kw: Seq<char>, close: char) -> Result<
    (EntryModel, int),
    ErrorKind,
> {
    let k = skip_ws(s, i);
    match ident_at(s, k) {
        Err(e) => Err(e),
        Ok(ke) => {
            let p = skip_ws(s, ke);
            let key = s.subrange(k, ke);
            if p < 0 || p >= s.len() {
                Err(ErrorKind::Incomplete)
            } else if s[p] == close {
                Ok((EntryModel::Bibliography(kw, key, seq![]), p))
            } else if s[p] == ',' {
                match tags_from(s, p + 1, close) {
                    Ok((t, c)) => Ok((EntryModel::Bibliography(kw, key, t), c)),
                    Err(e) => Err(e),
                }
            } else {
                Err(ErrorKind::Syntax)
            }
        }
    }
}

/// The body `name = value` of a string variable from `i` on, and the position
/// of its closing delimiter.
pub open spec fn variable_at(s: Seq<char>, i: int, close: char) -> Result<(EntryModel, int), ErrorKind> {
    let n = skip_ws(s, i);
    match field_at(s, n) {
        Err(e) => Err(e),
        Ok((ne, vs, ve, c)) => {
            if c < 0 || c >= s.len() {
                Err(ErrorKind::Incomplete)
            } else if s[c] != close {
                Err(ErrorKind::Syntax)
            } else {
                Ok((EntryModel::Variable(s.subrange(n, ne), s.subrange(vs, ve)), c))
            }
        }
    }
}

/// The body of an entry introduced by the keyword `kw`, from `i` on, and the
/// position of its closing delimiter.
pub open spec fn body_at(s: Seq<char>, i: int, kw: Seq<char>, close: char) -> Result<
    (EntryModel, int),
    ErrorKind,
> {
    if keyword_eq(kw, "comment"@) || keyword_eq(kw, "preamble"@) {
        match group_close(s, i, 0, close) {
            Ok(c) => Ok(
                (
                    if keyword_eq(kw, "comment"@) {
                        EntryModel::Comment(s.subrange(i, c))
                    } else {
                        EntryModel::Preamble(s.subrange(i, c))
                    },
                    c,
                ),
            ),
            Err(e) => Err(e),
        }
    } else if keyword_eq(kw, "string"@) {
        variable_at(s, i, close)
    } else {
        bibliography_at(s, i, kw, close)
    }
}

/// The entry whose keyword follows an `@` just before `i`, and the position
/// after its closing delimiter.
pub open spec fn entry_at(s: Seq<char>, i: int) -> Result<(EntryModel, int), ErrorKind> {
    let k = skip_ws(s, i);
    match ident_at(s, k) {
        Err(e) => Err(e),
        Ok(ke) => {
            let o = skip_ws(s, ke);
            if o < 0 || o >= s.len() {
                Err(ErrorKind::Incomplete)
            } else if s[o] != '{' && s[o] != '(' {
                Err(ErrorKind::Syntax)
            } else {
                let close = if s[o] == '{' { '}' } else { ')' };
                match body_at(s, o + 1, s.subrange(k, ke), close) {
                    Ok((e, c)) => Ok((e, c + 1)),
                    Err(e) => Err(e),
                }
            }
        }
    }
}

/// The entries of the text from `i` on; text outside entries is skipped.
pub open spec fn entries_from(s: Seq<char>, i: int) -> Result<Seq<EntryModel>, ErrorKind>
    decreases s.len() - i,
{
    let a = next_at(s, i);
    if a < 0 || a >= s.len() {
        Ok(seq![])
    } else {
        match entry_at(s, a + 1) {
            Err(e) => Err(e),
            Ok((e, n)) => if i < n <= s.len() {
                match entries_from(s, n) {
                    Ok(rest) => Ok(seq![e] + rest),
                    Err(x) => Err(x),
                }
            } else {
                Err(ErrorKind::Syntax)
            },
        }
    }
}

/// What parsing the whole text `s` gives.
pub open spec fn parse_model(s: Seq<char>) -> Result<Seq<EntryModel>, ErrorKind> {
    entries_from(s, 0)
}

} // verus!
