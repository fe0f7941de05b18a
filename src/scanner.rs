use vstd::prelude::*;
use crate::error::ErrorKind;
use crate::grammar::{
    char_eq_ci, group_close, ident_at, ident_end, is_ident_char, is_ws, keyword_eq, next_at,
    quote_close, skip_ws, value_at,
};

verus! {

/// A position result as the grammar states it.
pub open spec fn pos_view(r: Result<usize, ErrorKind>) -> Result<int, ErrorKind> {
    match r {
        Ok(j) => Ok(j as int),
        Err(e) => Err(e),
    }
}

/// A value result as the grammar states it.
pub open spec fn span_view(r: Result<(usize, usize, usize), ErrorKind>) -> Result<
    (int, int, int),
    ErrorKind,
> {
    match r {
        Ok((a, b, c)) => Ok((a as int, b as int, c as int)),
        Err(e) => Err(e),
    }
}

/// The characters of `s`, in order.
pub fn chars_of(s: &str) -> (r: Vec<char>)
    ensures
        r@ == s@,
{
    let mut v: Vec<char> = Vec::new();
    broadcast use vstd::string::axiom_spec_iter;

    for c in it: s.chars()
        invariant
            v@ == it.seq().subrange(0, it.index() as int),
            it.seq() == s@,
    {
        v.push(c);
    }
    v
}

/// Whether `c` is whitespace.
pub fn is_ws_char(c: char) -> (r: bool)
    ensures
        r == is_ws(c),
{
    c == ' ' || c == '\t' || c == '\n' || c == '\r'
}

/// Whether `c` may stand in an identifier.
pub fn is_ident(c: char) -> (r: bool)
    ensures
        r == is_ident_char(c),
{
    ('a' <= c && c <= 'z') || ('A' <= c && c <= 'Z') || ('0' <= c && c <= '9') || c == '_'
        || c == '-' || c == ':' || c == '.' || c == '/' || c == '+' || c == '\''
}

/// The first position at or after `i` that holds no whitespace.
pub fn skip_whitespace(cs: &Vec<char>, i: usize) -> (r: usize)
    requires
        i <= cs.len(),
    ensures
        r == skip_ws(cs@, i as int),
        i <= r <= cs.len(),
{
    let mut j = i;
    while j < cs.len() && is_ws_char(cs[j])
        invariant
            i <= j <= cs.len(),
            skip_ws(cs@, j as int) == skip_ws(cs@, i as int),
        decreases cs.len() - j,
    {
        j = j + 1;
    }
    j
}

/// The first position at or after `i` that holds no identifier character.
pub fn scan_ident_end(cs: &Vec<char>, i: usize) -> (r: usize)
    requires
        i <= cs.len(),
    ensures
        r == ident_end(cs@, i as int),
        i <= r <= cs.len(),
{
    let mut j = i;
    while j < cs.len() && is_ident(cs[j])
        invariant
            i <= j <= cs.len(),
            ident_end(cs@, j as int) == ident_end(cs@, i as int),
        decreases cs.len() - j,
    {
        j = j + 1;
    }
    j
}

/// The first position at or after `i` that holds `@`, or the length.
pub fn find_at(cs: &Vec<char>, i: usize) -> (r: usize)
    requires
        i <= cs.len(),
    ensures
        r == next_at(cs@, i as int),
        i <= r <= cs.len(),
{
    let mut j = i;
    while j < cs.len() && cs[j] != '@'
        invariant
            i <= j <= cs.len(),
            next_at(cs@, j as int) == next_at(cs@, i as int),
        decreases cs.len() - j,
    {
        j = j + 1;
    }
    j
}

/// Reads a non-empty identifier that starts at `i` and returns its end.
pub fn scan_ident(cs: &Vec<char>, i: usize) -> (r: Result<usize, ErrorKind>)
    requires
        i <= cs.len(),
    ensures
        pos_view(r) == ident_at(cs@, i as int),
        r matches Ok(j) ==> i < j < cs.len(),
{
    if i >= cs.len() {
        return Err(ErrorKind::Incomplete);
    }
    if !is_ident(cs[i]) {
        return Err(ErrorKind::Syntax);
    }
    let j = scan_ident_end(cs, i + 1);
    if j >= cs.len() {
        Err(ErrorKind::Incomplete)
    } else {
        Ok(j)
    }
}

/// Finds the delimiter `close` that ends a group whose content starts at `i`.
pub fn find_group_close(cs: &Vec<char>, i: usize, close: char) -> (r: Result<usize, ErrorKind>)
    requires
        i <= cs.len(),
    ensures
        pos_view(r) == group_close(cs@, i as int, 0, close),
        r matches Ok(j) ==> i <= j < cs.len(),
{
    let mut j = i;
    let mut depth: usize = 0;
    while j < cs.len()
        invariant
            i <= j <= cs.len(),
            depth <= j,
            group_close(cs@, j as int, depth as nat, close) == group_close(cs@, i as int, 0, close),
        decreases cs.len() - j,
    {
        let c = cs[j];
        if c == '{' {
            depth = depth + 1;
        } else if c == '}' {
            if depth > 0 {
                depth = depth - 1;
            } else if close == '}' {
                return Ok(j);
            } else {
                return Err(ErrorKind::Syntax);
            }
        } else if c == close && depth == 0 {
            return Ok(j);
        }
        j = j + 1;
    }
    Err(ErrorKind::Incomplete)
}

/// Finds the quote that ends a quoted value whose content starts at `i`.
pub fn find_quote_close(cs: &Vec<char>, i: usize) -> (r: Result<usize, ErrorKind>)
    requires
        i <= cs.len(),
    ensures
        pos_view(r) == quote_close(cs@, i as int),
        r matches Ok(j) ==> i <= j < cs.len(),
{
    let mut j = i;
    while j < cs.len()
        invariant
            i <= j <= cs.len(),
            quote_close(cs@, j as int) == quote_close(cs@, i as int),
        decreases cs.len() - j,
    {
        let c = cs[j];
        if c == '"' {
            return Ok(j);
        } else if c == '\\' {
            if j + 1 < cs.len() {
                j = j + 2;
            } else {
                return Err(ErrorKind::Incomplete);
            }
        } else {
            j = j + 1;
        }
    }
    Err(ErrorKind::Incomplete)
}

/// Reads a value that starts at `i`: a braced group, a quoted group, or a
/// bare number or name.
pub fn scan_value(cs: &Vec<char>, i: usize) -> (r: Result<(usize, usize, usize), ErrorKind>)
    requires
        i <= cs.len(),
    ensures
        span_view(r) == value_at(cs@, i as int),
        r matches Ok((a, b, c)) ==> i <= a <= b <= c <= cs.len() && i < c,
{
    if i >= cs.len() {
        return Err(ErrorKind::Incomplete);
    }
    if cs[i] == '{' {
        match find_group_close(cs, i + 1, '}') {
            Ok(j) => Ok((i + 1, j, j + 1)),
            Err(e) => Err(e),
        }
    } else if cs[i] == '"' {
        match find_quote_close(cs, i + 1) {
            Ok(j) => Ok((i + 1, j, j + 1)),
            Err(e) => Err(e),
        }
    } else {
        match scan_ident(cs, i) {
            Ok(j) => Ok((i, j, j)),
            Err(e) => Err(e),
        }
    }
}

/// Whether the characters from `from` to `to` spell the lower-case word `w`,
/// ignoring ASCII case.
pub fn keyword_matches(cs: &Vec<char>, from: usize, to: usize, w: &str) -> (r: bool)
    requires
        from <= to <= cs.len(),
    ensures
        r == keyword_eq(cs@.subrange(from as int, to as int), w@),
{
    let ghost kw = cs@.subrange(from as int, to as int);
    let n = w.unicode_len();
    if to - from != n {
        return false;
    }
    let mut j: usize = 0;
    while j < n
        invariant
            j <= n,
            n == w@.len(),
            to - from == n,
            from <= to <= cs.len(),
            kw == cs@.subrange(from as int, to as int),
            forall|k: int| 0 <= k < j ==> char_eq_ci(#[trigger] kw[k], w@[k]),
        decreases n - j,
    {
        let a = cs[from + j];
        let b = w.get_char(j);
        if !(a == b || ('a' <= b && b <= 'z' && 'A' <= a && a <= 'Z' && a as u32 == b as u32
            - 32)) {
            assert(!char_eq_ci(kw[j as int], w@[j as int]));
            return false;
        }
        j = j + 1;
    }
    true
}

} // verus!
