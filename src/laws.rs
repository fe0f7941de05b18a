use vstd::prelude::*;
use crate::error::ErrorKind;
use crate::model::Bibtex;
use crate::parser::entries_after;
use crate::grammar::{
    bibliography_at, body_at, char_eq_ci, entries_from, entry_at, field_at, group_close, ident_at, ident_end,
    is_ident_char, is_ws, keyword_eq, next_at, parse_model, quote_close, skip_ws, tags_from,
    value_at, variable_at, EntryModel,
};

verus! {

/// `t` holds all of `s` from position `d` on.
pub open spec fn shifted(s: Seq<char>, t: Seq<char>, d: int) -> bool {
    &&& d >= 0
    &&& t.len() >= s.len() + d
    &&& forall|k: int| 0 <= k < s.len() ==> t[k + d] == #[trigger] s[k]
}

/// `t` holds all of `s` from position `d` on, and ends where `s` ends.
pub open spec fn ends_with(s: Seq<char>, t: Seq<char>, d: int) -> bool {
    shifted(s, t, d) && t.len() == s.len() + d
}

/// A slice of `s` is the same slice of `t`, moved by `d`.
proof fn lemma_subrange_shift(s: Seq<char>, t: Seq<char>, d: int, a: int, b: int)
    requires
        shifted(s, t, d),
        0 <= a <= b <= s.len(),
    ensures
        t.subrange(a + d, b + d) == s.subrange(a, b),
{
    assert forall|k: int| 0 <= k < b - a implies t.subrange(a + d, b + d)[k] == s.subrange(a, b)[k] by {
        assert(t[(a + k) + d] == s[a + k]);
    }
    assert(t.subrange(a + d, b + d) =~= s.subrange(a, b));
}

/// Skipping whitespace in `s` and in `t` stops at the same place, moved by `d`.
proof fn lemma_skip_ws_shift(s: Seq<char>, t: Seq<char>, d: int, i: int)
    requires
        shifted(s, t, d),
        0 <= i <= s.len(),
        skip_ws(s, i) < s.len() || t.len() == s.len() + d,
    ensures
        skip_ws(t, i + d) == skip_ws(s, i) + d,
        i <= skip_ws(s, i) <= s.len(),
    decreases s.len() - i,
{
    if i < s.len() {
        assert(t[i + d] == s[i]);
        if is_ws(s[i]) {
            lemma_skip_ws_shift(s, t, d, i + 1);
        }
    }
}

/// An identifier of `s` ends in `t` at the same place, moved by `d`.
proof fn lemma_ident_end_shift(s: Seq<char>, t: Seq<char>, d: int, i: int)
    requires
        shifted(s, t, d),
        0 <= i <= s.len(),
        ident_end(s, i) < s.len() || t.len() == s.len() + d,
    ensures
        ident_end(t, i + d) == ident_end(s, i) + d,
        i <= ident_end(s, i) <= s.len(),
    decreases s.len() - i,
{
    if i < s.len() {
        assert(t[i + d] == s[i]);
        if is_ident_char(s[i]) {
            lemma_ident_end_shift(s, t, d, i + 1);
        }
    }
}

/// The next `@` of `s` is the next `@` of `t`, moved by `d`.
proof fn lemma_next_at_shift(s: Seq<char>, t: Seq<char>, d: int, i: int)
    requires
        shifted(s, t, d),
        0 <= i <= s.len(),
        next_at(s, i) < s.len() || t.len() == s.len() + d,
    ensures
        next_at(t, i + d) == next_at(s, i) + d,
        i <= next_at(s, i) <= s.len(),
    decreases s.len() - i,
{
    if i < s.len() {
        assert(t[i + d] == s[i]);
        if s[i] != '@' {
            lemma_next_at_shift(s, t, d, i + 1);
        }
    }
}

/// A group that closes in `s` closes in `t` at the same place, moved by `d`.
proof fn lemma_group_close_shift(
    s: Seq<char>,
    t: Seq<char>,
    d: int,
    i: int,
    depth: nat,
    close: char,
)
    requires
        shifted(s, t, d),
        0 <= i,
        group_close(s, i, depth, close) is Ok,
    ensures
        group_close(s, i, depth, close) matches Ok(j) ==> i <= j < s.len()
            && group_close(t, i + d, depth, close) == Ok::<int, ErrorKind>(j + d),
    decreases s.len() - i,
{
    assert(t[i + d] == s[i]);
    if s[i] == '{' {
        lemma_group_close_shift(s, t, d, i + 1, depth + 1, close);
    } else if s[i] == '}' {
        if depth > 0 {
            lemma_group_close_shift(s, t, d, i + 1, (depth - 1) as nat, close);
        }
    } else if s[i] == close && depth == 0 {
    } else {
        lemma_group_close_shift(s, t, d, i + 1, depth, close);
    }
}

/// A quoted value that closes in `s` closes in `t` at the same place, moved by `d`.
proof fn lemma_quote_close_shift(s: Seq<char>, t: Seq<char>, d: int, i: int)
    requires
        shifted(s, t, d),
        0 <= i,
        quote_close(s, i) is Ok,
    ensures
        quote_close(s, i) matches Ok(j) ==> i <= j < s.len() && quote_close(t, i + d) == Ok::<
            int,
            ErrorKind,
        >(j + d),
    decreases s.len() - i,
{
    assert(t[i + d] == s[i]);
    if s[i] == '"' {
    } else if s[i] == '\\' {
        assert(t[(i + 1) + d] == s[i + 1]);
        lemma_quote_close_shift(s, t, d, i + 2);
    } else {
        lemma_quote_close_shift(s, t, d, i + 1);
    }
}

/// An identifier read in `s` is read in `t`, moved by `d`.
proof fn lemma_ident_at_shift(s: Seq<char>, t: Seq<char>, d: int, i: int)
    requires
        shifted(s, t, d),
        0 <= i,
        ident_at(s, i) is Ok,
    ensures
        ident_at(s, i) matches Ok(j) ==> i < j < s.len() && ident_at(t, i + d) == Ok::<
            int,
            ErrorKind,
        >(j + d),
{
    assert(t[i + d] == s[i]);
    lemma_ident_end_shift(s, t, d, i);
    lemma_ident_end_shift(s, t, d, i + 1);
}

/// A value read in `s` is read in `t`, moved by `d`.
proof fn lemma_value_at_shift(s: Seq<char>, t: Seq<char>, d: int, i: int)
    requires
        shifted(s, t, d),
        0 <= i,
        value_at(s, i) is Ok,
    ensures
        value_at(s, i) matches Ok((a, b, c)) ==> i <= a <= b <= c <= s.len() && i < c
            && value_at(t, i + d) == Ok::<(int, int, int), ErrorKind>((a + d, b + d, c + d)),
{
    assert(t[i + d] == s[i]);
    if s[i] == '{' {
        lemma_group_close_shift(s, t, d, i + 1, 0, '}');
    } else if s[i] == '"' {
        lemma_quote_close_shift(s, t, d, i + 1);
    } else {
        lemma_ident_at_shift(s, t, d, i);
    }
}

/// A field read in `s`, followed by more text, is read in `t`, moved by `d`.
proof fn lemma_field_at_shift(s: Seq<char>, t: Seq<char>, d: int, i: int)
    requires
        shifted(s, t, d),
        0 <= i,
        field_at(s, i) matches Ok((_, _, _, r)) && r < s.len(),
    ensures
        field_at(s, i) matches Ok((ke, vs, ve, r)) ==> i < ke <= vs <= ve <= r < s.len()
            && field_at(t, i + d) == Ok::<(int, int, int, int), ErrorKind>(
            (ke + d, vs + d, ve + d, r + d),
        ),
{
    lemma_ident_at_shift(s, t, d, i);
    let ke = ident_at(s, i)->Ok_0;
    lemma_skip_ws_shift(s, t, d, ke);
    let q = skip_ws(s, ke);
    assert(t[q + d] == s[q]);
    lemma_skip_ws_shift(s, t, d, q + 1);
    let v = skip_ws(s, q + 1);
    lemma_value_at_shift(s, t, d, v);
    let vn = value_at(s, v)->Ok_0.2;
    lemma_skip_ws_shift(s, t, d, vn);
}

/// A tag list read in `s` is read in `t`, moved by `d`.
proof fn lemma_tags_from_shift(s: Seq<char>, t: Seq<char>, d: int, i: int, close: char)
    requires
        shifted(s, t, d),
        0 <= i <= s.len(),
        tags_from(s, i, close) is Ok,
    ensures
        tags_from(s, i, close) matches Ok((tags, c)) ==> i <= c < s.len() && tags_from(
            t,
            i + d,
            close,
        ) == Ok::<(Seq<(Seq<char>, Seq<char>)>, int), ErrorKind>((tags, c + d)),
    decreases s.len() - i,
{
    lemma_skip_ws_shift(s, t, d, i);
    let p = skip_ws(s, i);
    assert(t[p + d] == s[p]);
    if s[p] != close {
        lemma_field_at_shift(s, t, d, p);
        let (ke, vs, ve, r) = field_at(s, p)->Ok_0;
        assert(t[r + d] == s[r]);
        lemma_subrange_shift(s, t, d, p, ke);
        lemma_subrange_shift(s, t, d, vs, ve);
        if s[r] != close {
            lemma_tags_from_shift(s, t, d, r + 1, close);
        }
    }
}

/// A record body read in `s` is read in `t`, moved by `d`.
proof fn lemma_bibliography_at_shift(
    s: Seq<char>,
    t: Seq<char>,
    d: int,
    i: int,
    kw: Seq<char>,
    close: char,
)
    requires
        shifted(s, t, d),
        0 <= i <= s.len(),
        bibliography_at(s, i, kw, close) is Ok,
    ensures
        bibliography_at(s, i, kw, close) matches Ok((e, c)) ==> i <= c < s.len()
            && bibliography_at(t, i + d, kw, close) == Ok::<(EntryModel, int), ErrorKind>(
            (e, c + d),
        ),
{
    lemma_skip_ws_shift(s, t, d, i);
    let k = skip_ws(s, i);
    lemma_ident_at_shift(s, t, d, k);
    let ke = ident_at(s, k)->Ok_0;
    lemma_skip_ws_shift(s, t, d, ke);
    let p = skip_ws(s, ke);
    assert(t[p + d] == s[p]);
    lemma_subrange_shift(s, t, d, k, ke);
    if s[p] != close {
        lemma_tags_from_shift(s, t, d, p + 1, close);
    }
}

/// A variable body read in `s` is read in `t`, moved by `d`.
proof fn lemma_variable_at_shift(s: Seq<char>, t: Seq<char>, d: int, i: int, close: char)
    requires
        shifted(s, t, d),
        0 <= i <= s.len(),
        variable_at(s, i, close) is Ok,
    ensures
        variable_at(s, i, close) matches Ok((e, c)) ==> i <= c < s.len() && variable_at(
            t,
            i + d,
            close,
        ) == Ok::<(EntryModel, int), ErrorKind>((e, c + d)),
{
    lemma_skip_ws_shift(s, t, d, i);
    let n = skip_ws(s, i);
    lemma_field_at_shift(s, t, d, n);
    let (ne, vs, ve, c) = field_at(s, n)->Ok_0;
    assert(t[c + d] == s[c]);
    lemma_subrange_shift(s, t, d, n, ne);
    lemma_subrange_shift(s, t, d, vs, ve);
}

/// An entry body read in `s` is read in `t`, moved by `d`.
proof fn lemma_body_at_shift(
    s: Seq<char>,
    t: Seq<char>,
    d: int,
    i: int,
    kw: Seq<char>,
    close: char,
)
    requires
        shifted(s, t, d),
        0 <= i <= s.len(),
        body_at(s, i, kw, close) is Ok,
    ensures
        body_at(s, i, kw, close) matches Ok((e, c)) ==> i <= c < s.len() && body_at(
            t,
            i + d,
            kw,
            close,
        ) == Ok::<(EntryModel, int), ErrorKind>((e, c + d)),
{
    if keyword_eq(kw, "comment"@) || keyword_eq(kw, "preamble"@) {
        lemma_group_close_shift(s, t, d, i, 0, close);
        let c = group_close(s, i, 0, close)->Ok_0;
        lemma_subrange_shift(s, t, d, i, c);
    } else if keyword_eq(kw, "string"@) {
        lemma_variable_at_shift(s, t, d, i, close);
    } else {
        lemma_bibliography_at_shift(s, t, d, i, kw, close);
    }
}

/// An entry read in `s` is read in `t`, moved by `d`.
proof fn lemma_entry_at_shift(s: Seq<char>, t: Seq<char>, d: int, i: int)
    requires
        shifted(s, t, d),
        0 <= i <= s.len(),
        entry_at(s, i) is Ok,
    ensures
        entry_at(s, i) matches Ok((e, n)) ==> i < n <= s.len() && entry_at(t, i + d) == Ok::<
            (EntryModel, int),
            ErrorKind,
        >((e, n + d)),
{
    lemma_skip_ws_shift(s, t, d, i);
    let k = skip_ws(s, i);
    lemma_ident_at_shift(s, t, d, k);
    let ke = ident_at(s, k)->Ok_0;
    lemma_skip_ws_shift(s, t, d, ke);
    let o = skip_ws(s, ke);
    assert(t[o + d] == s[o]);
    lemma_subrange_shift(s, t, d, k, ke);
    let close = if s[o] == '{' {
        '}'
    } else {
        ')'
    };
    lemma_body_at_shift(s, t, d, o + 1, s.subrange(k, ke), close);
}

/// The entries of `s` are those of `t` from `d` on, where `t` ends where `s` does.
proof fn lemma_entries_from_shift(s: Seq<char>, t: Seq<char>, d: int, i: int)
    requires
        ends_with(s, t, d),
        0 <= i <= s.len(),
        entries_from(s, i) is Ok,
    ensures
        entries_from(t, i + d) == entries_from(s, i),
    decreases s.len() - i,
{
    lemma_next_at_shift(s, t, d, i);
    let a = next_at(s, i);
    if a < s.len() {
        lemma_entry_at_shift(s, t, d, a + 1);
        let n = entry_at(s, a + 1)->Ok_0.1;
        lemma_entries_from_shift(s, t, d, n);
    }
}

/// Text of `s` without `@` after `i` is passed over in `t` up to the end of `s`.
proof fn lemma_next_at_rest(s: Seq<char>, t: Seq<char>, i: int)
    requires
        shifted(s, t, 0),
        0 <= i <= s.len(),
        next_at(s, i) >= s.len(),
    ensures
        next_at(t, i) == next_at(t, s.len() as int),
    decreases s.len() - i,
{
    if i < s.len() {
        assert(t[i + 0] == s[i]);
        lemma_next_at_rest(s, t, i + 1);
    }
}

/// The entries of a prefix `s` of `t` come first among the entries of `t`.
proof fn lemma_entries_from_prefix(s: Seq<char>, t: Seq<char>, i: int)
    requires
        shifted(s, t, 0),
        0 <= i <= s.len(),
        entries_from(s, i) is Ok,
    ensures
        entries_from(s, i) matches Ok(x) ==> entries_from(t, i) == entries_after(
            x,
            entries_from(t, s.len() as int),
        ),
    decreases s.len() - i,
{
    let a = next_at(s, i);
    if a < s.len() {
        lemma_next_at_shift(s, t, 0, i);
        lemma_entry_at_shift(s, t, 0, a + 1);
        let (e, n) = entry_at(s, a + 1)->Ok_0;
        lemma_entries_from_prefix(s, t, n);
        let rest = entries_from(s, n)->Ok_0;
        match entries_from(t, s.len() as int) {
            Ok(y) => {
                assert(seq![e] + (rest + y) =~= (seq![e] + rest) + y);
            },
            Err(_) => {},
        }
    } else {
        lemma_next_at_rest(s, t, i);
        lemma_next_at_shift(t, t, 0, s.len() as int);
        let p = next_at(t, i);
        if p < t.len() {
            if entry_at(t, p + 1) is Ok {
                lemma_entry_at_shift(t, t, 0, p + 1);
                let n = entry_at(t, p + 1)->Ok_0.1;
                if entries_from(t, n) is Ok {
                    assert(Seq::<EntryModel>::empty() + entries_from(t, s.len() as int)->Ok_0
                        =~= entries_from(t, s.len() as int)->Ok_0);
                }
            }
        } else {
            assert(Seq::<EntryModel>::empty() + Seq::<EntryModel>::empty() =~= Seq::<
                EntryModel,
            >::empty());
        }
    }
}

/// An empty text holds no entries.
pub proof fn law_empty_input()
    ensures
        parse_model(Seq::<char>::empty()) == Ok::<Seq<EntryModel>, ErrorKind>(seq![]),
{
}

/// A text without `@` is free text: it holds no entries.
pub proof fn law_free_text(s: Seq<char>)
    requires
        forall|k: int| 0 <= k < s.len() ==> s[k] != '@',
    ensures
        parse_model(s) == Ok::<Seq<EntryModel>, ErrorKind>(seq![]),
{
    assert(next_at(s, 0) == s.len()) by {
        lemma_next_at_shift(s, s, 0, 0);
        if next_at(s, 0) < s.len() {
            lemma_next_at_found(s, 0);
        }
    }
}

/// The next `@`, where there is one, holds `@`.
proof fn lemma_next_at_found(s: Seq<char>, i: int)
    requires
        0 <= i <= next_at(s, i) < s.len(),
    ensures
        s[next_at(s, i)] == '@',
    decreases s.len() - i,
{
    if s[i] != '@' {
        lemma_next_at_shift(s, s, 0, i + 1);
        lemma_next_at_found(s, i + 1);
    }
}

/// `a + b` holds `a` from 0 on and ends with `b`.
proof fn lemma_concat_parts(a: Seq<char>, b: Seq<char>)
    ensures
        shifted(a, a + b, 0),
        ends_with(b, a + b, a.len() as int),
{
    let t = a + b;
    assert forall|k: int| 0 <= k < a.len() implies t[k + 0] == #[trigger] a[k] by {}
    assert forall|k: int| 0 <= k < b.len() implies t[k + a.len()] == #[trigger] b[k] by {}
}

/// Two well-formed texts written one after the other hold the entries of the
/// first followed by those of the second: each entry keeps its place in the
/// order of the text, and the text between entries adds none.
pub proof fn law_concatenation(a: Seq<char>, b: Seq<char>)
    requires
        parse_model(a) is Ok,
        parse_model(b) is Ok,
    ensures
        parse_model(a + b) == Ok::<Seq<EntryModel>, ErrorKind>(
            parse_model(a)->Ok_0 + parse_model(b)->Ok_0,
        ),
{
    let t = a + b;
    lemma_concat_parts(a, b);
    lemma_entries_from_prefix(a, t, 0);
    lemma_entries_from_shift(b, t, a.len() as int, 0);
}

/// Parsing is a function of the text alone: two documents that parsing gave
/// for the same text are equal.
pub proof fn law_reparse_equal<'a>(input: &'a str, first: Bibtex<'a>, second: Bibtex<'a>)
    requires
        parse_model(input@) == Ok::<Seq<EntryModel>, ErrorKind>(first@),
        parse_model(input@) == Ok::<Seq<EntryModel>, ErrorKind>(second@),
    ensures
        first@ == second@,
{
}

/// `s` and `t` have one length and agree from position `lo` on.
pub open spec fn agree_from(s: Seq<char>, t: Seq<char>, lo: int) -> bool {
    &&& 0 <= lo
    &&& s.len() == t.len()
    &&& forall|k: int| lo <= k < s.len() ==> t[k] == #[trigger] s[k]
}

/// Where `s` and `t` agree, their slices agree.
proof fn lemma_subrange_agree(s: Seq<char>, t: Seq<char>, lo: int, a: int, b: int)
    requires
        agree_from(s, t, lo),
        lo <= a <= b <= s.len(),
    ensures
        t.subrange(a, b) == s.subrange(a, b),
{
    assert forall|k: int| 0 <= k < b - a implies t.subrange(a, b)[k] == s.subrange(a, b)[k] by {
        assert(t[a + k] == s[a + k]);
    }
    assert(t.subrange(a, b) =~= s.subrange(a, b));
}

/// Where `s` and `t` agree, skipping whitespace stops at the same place.
proof fn lemma_skip_ws_agree(s: Seq<char>, t: Seq<char>, lo: int, i: int)
    requires
        agree_from(s, t, lo),
        lo <= i,
    ensures
        skip_ws(t, i) == skip_ws(s, i),
        i <= s.len() ==> i <= skip_ws(s, i) <= s.len(),
    decreases s.len() - i,
{
    if i < s.len() {
        assert(t[i] == s[i]);
        lemma_skip_ws_agree(s, t, lo, i + 1);
    }
}

/// Where `s` and `t` agree, an identifier ends at the same place.
proof fn lemma_ident_end_agree(s: Seq<char>, t: Seq<char>, lo: int, i: int)
    requires
        agree_from(s, t, lo),
        lo <= i,
    ensures
        ident_end(t, i) == ident_end(s, i),
    decreases s.len() - i,
{
    if i < s.len() {
        assert(t[i] == s[i]);
        lemma_ident_end_agree(s, t, lo, i + 1);
    }
}

/// Where `s` and `t` agree, the next `@` is at the same place.
proof fn lemma_next_at_agree(s: Seq<char>, t: Seq<char>, lo: int, i: int)
    requires
        agree_from(s, t, lo),
        lo <= i,
    ensures
        next_at(t, i) == next_at(s, i),
    decreases s.len() - i,
{
    if i < s.len() {
        assert(t[i] == s[i]);
        lemma_next_at_agree(s, t, lo, i + 1);
    }
}

/// Where `s` and `t` agree, a group closes alike.
proof fn lemma_group_close_agree(
    s: Seq<char>,
    t: Seq<char>,
    lo: int,
    i: int,
    depth: nat,
    close: char,
)
    requires
        agree_from(s, t, lo),
        lo <= i,
    ensures
        group_close(t, i, depth, close) == group_close(s, i, depth, close),
    decreases s.len() - i,
{
    if i < s.len() {
        assert(t[i] == s[i]);
        if s[i] == '{' {
            lemma_group_close_agree(s, t, lo, i + 1, depth + 1, close);
        } else if s[i] == '}' {
            if depth > 0 {
                lemma_group_close_agree(s, t, lo, i + 1, (depth - 1) as nat, close);
            }
        } else {
            lemma_group_close_agree(s, t, lo, i + 1, depth, close);
        }
    }
}

/// Where `s` and `t` agree, a quoted value closes alike.
proof fn lemma_quote_close_agree(s: Seq<char>, t: Seq<char>, lo: int, i: int)
    requires
        agree_from(s, t, lo),
        lo <= i,
    ensures
        quote_close(t, i) == quote_close(s, i),
    decreases s.len() - i,
{
    if i < s.len() {
        assert(t[i] == s[i]);
        if s[i] == '\\' {
            if i + 1 < s.len() {
                lemma_quote_close_agree(s, t, lo, i + 2);
            }
        } else {
            lemma_quote_close_agree(s, t, lo, i + 1);
        }
    }
}

/// Where `s` and `t` agree, a value reads alike.
proof fn lemma_value_at_agree(s: Seq<char>, t: Seq<char>, lo: int, i: int)
    requires
        agree_from(s, t, lo),
        lo <= i,
    ensures
        value_at(t, i) == value_at(s, i),
{
    if i < s.len() {
        assert(t[i] == s[i]);
        lemma_group_close_agree(s, t, lo, i + 1, 0, '}');
        lemma_quote_close_agree(s, t, lo, i + 1);
        lemma_ident_end_agree(s, t, lo, i);
    }
}

/// Where `s` and `t` agree, a field reads alike.
proof fn lemma_field_at_agree(s: Seq<char>, t: Seq<char>, lo: int, i: int)
    requires
        agree_from(s, t, lo),
        lo <= i <= s.len(),
    ensures
        field_at(t, i) == field_at(s, i),
        field_at(s, i) matches Ok((ke, vs, ve, r)) ==> i < ke <= vs <= ve <= r <= s.len(),
{
    if i < s.len() {
        assert(t[i] == s[i]);
    }
    lemma_ident_end_agree(s, t, lo, i);
    if ident_at(s, i) is Ok {
        lemma_ident_at_shift(s, s, 0, i);
        let ke = ident_at(s, i)->Ok_0;
        lemma_skip_ws_agree(s, t, lo, ke);
        let q = skip_ws(s, ke);
        if q < s.len() {
            assert(t[q] == s[q]);
            lemma_skip_ws_agree(s, t, lo, q + 1);
            let v = skip_ws(s, q + 1);
            lemma_value_at_agree(s, t, lo, v);
            if value_at(s, v) is Ok {
                lemma_value_at_shift(s, s, 0, v);
                lemma_skip_ws_agree(s, t, lo, value_at(s, v)->Ok_0.2);
            }
        }
    }
}

/// Where `s` and `t` agree, a tag list reads alike.
proof fn lemma_tags_from_agree(s: Seq<char>, t: Seq<char>, lo: int, i: int, close: char)
    requires
        agree_from(s, t, lo),
        lo <= i <= s.len(),
    ensures
        tags_from(t, i, close) == tags_from(s, i, close),
    decreases s.len() - i,
{
    lemma_skip_ws_agree(s, t, lo, i);
    let p = skip_ws(s, i);
    if p < s.len() {
        assert(t[p] == s[p]);
        lemma_field_at_agree(s, t, lo, p);
        if field_at(s, p) is Ok {
            let (ke, vs, ve, r) = field_at(s, p)->Ok_0;
            lemma_subrange_agree(s, t, lo, p, ke);
            lemma_subrange_agree(s, t, lo, vs, ve);
            if r < s.len() {
                assert(t[r] == s[r]);
                lemma_tags_from_agree(s, t, lo, r + 1, close);
            }
        }
    }
}

/// Where `s` and `t` agree, an entry body reads alike.
proof fn lemma_body_at_agree(
    s: Seq<char>,
    t: Seq<char>,
    lo: int,
    i: int,
    kw: Seq<char>,
    close: char,
)
    requires
        agree_from(s, t, lo),
        lo <= i <= s.len(),
    ensures
        body_at(t, i, kw, close) == body_at(s, i, kw, close),
{
    lemma_group_close_agree(s, t, lo, i, 0, close);
    if group_close(s, i, 0, close) is Ok {
        lemma_group_close_shift(s, s, 0, i, 0, close);
        lemma_subrange_agree(s, t, lo, i, group_close(s, i, 0, close)->Ok_0);
    }
    lemma_skip_ws_agree(s, t, lo, i);
    let k = skip_ws(s, i);
    lemma_field_at_agree(s, t, lo, k);
    if field_at(s, k) is Ok {
        let (ne, vs, ve, c) = field_at(s, k)->Ok_0;
        lemma_subrange_agree(s, t, lo, k, ne);
        lemma_subrange_agree(s, t, lo, vs, ve);
        if c < s.len() {
            assert(t[c] == s[c]);
        }
    }
    if k < s.len() {
        assert(t[k] == s[k]);
    }
    lemma_ident_end_agree(s, t, lo, k);
    if ident_at(s, k) is Ok {
        lemma_ident_at_shift(s, s, 0, k);
        let ke = ident_at(s, k)->Ok_0;
        lemma_subrange_agree(s, t, lo, k, ke);
        lemma_skip_ws_agree(s, t, lo, ke);
        let p = skip_ws(s, ke);
        if p < s.len() {
            assert(t[p] == s[p]);
            lemma_tags_from_agree(s, t, lo, p + 1, close);
        }
    }
}

/// Where `s` and `t` agree, an entry reads alike.
proof fn lemma_entry_at_agree(s: Seq<char>, t: Seq<char>, lo: int, i: int)
    requires
        agree_from(s, t, lo),
        lo <= i <= s.len(),
    ensures
        entry_at(t, i) == entry_at(s, i),
{
    lemma_skip_ws_agree(s, t, lo, i);
    let k = skip_ws(s, i);
    if k < s.len() {
        assert(t[k] == s[k]);
    }
    lemma_ident_end_agree(s, t, lo, k);
    if ident_at(s, k) is Ok {
        lemma_ident_at_shift(s, s, 0, k);
        let ke = ident_at(s, k)->Ok_0;
        lemma_subrange_agree(s, t, lo, k, ke);
        lemma_skip_ws_agree(s, t, lo, ke);
        let o = skip_ws(s, ke);
        if o < s.len() {
            assert(t[o] == s[o]);
            let close = if s[o] == '{' {
                '}'
            } else {
                ')'
            };
            lemma_body_at_agree(s, t, lo, o + 1, s.subrange(k, ke), close);
        }
    }
}

/// Where `s` and `t` agree, the entries are the same.
proof fn lemma_entries_from_agree(s: Seq<char>, t: Seq<char>, lo: int, i: int)
    requires
        agree_from(s, t, lo),
        lo <= i <= s.len(),
    ensures
        entries_from(t, i) == entries_from(s, i),
    decreases s.len() - i,
{
    lemma_next_at_agree(s, t, lo, i);
    lemma_next_at_shift(s, s, 0, i);
    let a = next_at(s, i);
    if a < s.len() {
        lemma_entry_at_agree(s, t, lo, a + 1);
        if entry_at(s, a + 1) is Ok {
            lemma_entry_at_shift(s, s, 0, a + 1);
            lemma_entries_from_agree(s, t, lo, entry_at(s, a + 1)->Ok_0.1);
        }
    }
}

/// A word that the grammar reads as a keyword rather than as a record type.
pub open spec fn is_reserved(w: Seq<char>) -> bool {
    w == "comment"@ || w == "preamble"@ || w == "string"@
}

/// All the characters of `k` may stand in an identifier.
pub open spec fn all_ident(k: Seq<char>) -> bool {
    forall|j: int| 0 <= j < k.len() ==> is_ident_char(#[trigger] k[j])
}

/// A spelling of a keyword in any case is made of letters and matches that keyword alone.
proof fn lemma_reserved_spelling(k: Seq<char>, w: Seq<char>)
    requires
        is_reserved(w),
        keyword_eq(k, w),
    ensures
        k.len() > 0,
        all_ident(k),
        keyword_eq(k, "comment"@) == (w == "comment"@),
        keyword_eq(k, "preamble"@) == (w == "preamble"@),
        keyword_eq(k, "string"@) == (w == "string"@),
        w == "string"@ ==> !keyword_eq(k, "comment"@) && !keyword_eq(k, "preamble"@),
{
    reveal_strlit("comment");
    reveal_strlit("preamble");
    reveal_strlit("string");
    assert forall|j: int| 0 <= j < w.len() implies 'a' <= #[trigger] w[j] && w[j] <= 'z' by {
        if j == 0 {
        } else if j == 1 {
        } else if j == 2 {
        } else if j == 3 {
        } else if j == 4 {
        } else if j == 5 {
        } else if j == 6 {
        } else {
            assert(j == 7);
        }
    }
    assert forall|j: int| 0 <= j < k.len() implies is_ident_char(#[trigger] k[j]) by {
        assert(char_eq_ci(k[j], w[j]));
        assert('a' <= w[j] && w[j] <= 'z');
    }
}

/// An identifier passes over a run of identifier characters.
proof fn lemma_ident_run(s: Seq<char>, a: int, b: int)
    requires
        0 <= a <= b <= s.len(),
        forall|j: int| a <= j < b ==> is_ident_char(#[trigger] s[j]),
    ensures
        ident_end(s, a) == ident_end(s, b),
    decreases b - a,
{
    if a < b {
        lemma_ident_run(s, a + 1, b);
    }
}

/// In `@` + `k` + `rest`, the keyword is `k` and stands from 1 to its end.
proof fn lemma_keyword_read(s: Seq<char>, k: Seq<char>, rest: Seq<char>)
    requires
        s == seq!['@'] + k + rest,
        k.len() > 0,
        all_ident(k),
        rest.len() > 0,
        !is_ident_char(rest[0]),
    ensures
        next_at(s, 0) == 0,
        skip_ws(s, 1) == 1,
        ident_at(s, 1) == Ok::<int, ErrorKind>(k.len() as int + 1),
        s.subrange(1, k.len() as int + 1) == k,
{
    let m: int = k.len() as int + 1;
    assert(s[0] == '@');
    assert(s[1] == k[0]);
    assert forall|j: int| 1 <= j < m implies is_ident_char(#[trigger] s[j]) by {
        assert(s[j] == k[j - 1]);
    }
    lemma_ident_run(s, 1, m);
    assert(s[m] == rest[0]);
    assert(s.subrange(1, m) =~= k);
}

/// The keywords `comment`, `preamble` and `string` are read without regard to
/// ASCII case: two entries whose keywords spell one of them in different
/// cases, followed by the same text, give the same result; with `string` the
/// entry is a string variable.
pub proof fn law_reserved_keyword_case(
    k1: Seq<char>,
    k2: Seq<char>,
    w: Seq<char>,
    rest: Seq<char>,
)
    requires
        is_reserved(w),
        keyword_eq(k1, w),
        keyword_eq(k2, w),
        rest.len() > 0,
        !is_ident_char(rest[0]),
    ensures
        parse_model(seq!['@'] + k1 + rest) == parse_model(seq!['@'] + k2 + rest),
        w == "string"@ ==> (parse_model(seq!['@'] + k1 + rest) matches Ok(x) ==> (x.len() > 0
            && x[0] is Variable)),
{
    let s1 = seq!['@'] + k1 + rest;
    let s2 = seq!['@'] + k2 + rest;
    let m: int = w.len() as int + 1;
    lemma_reserved_spelling(k1, w);
    lemma_reserved_spelling(k2, w);
    lemma_keyword_read(s1, k1, rest);
    lemma_keyword_read(s2, k2, rest);
    assert(agree_from(s1, s2, m)) by {
        assert forall|j: int| m <= j < s1.len() implies s2[j] == #[trigger] s1[j] by {
            assert(s1[j] == rest[j - m]);
            assert(s2[j] == rest[j - m]);
        }
    }
    lemma_skip_ws_agree(s1, s2, m, m);
    let o = skip_ws(s1, m);
    if o < s1.len() && (s1[o] == '{' || s1[o] == '(') {
        assert(s2[o] == s1[o]);
        let close = if s1[o] == '{' {
            '}'
        } else {
            ')'
        };
        lemma_body_at_agree(s1, s2, m, o + 1, k2, close);
        assert(body_at(s1, o + 1, k1, close) == body_at(s1, o + 1, k2, close));
        assert(entry_at(s1, 1) == match body_at(s1, o + 1, k1, close) {
            Ok((e, c)) => Ok((e, c + 1)),
            Err(e) => Err(e),
        });
        assert(entry_at(s1, 1) == entry_at(s2, 1));
        if body_at(s1, o + 1, k1, close) is Ok {
            lemma_body_at_shift(s1, s1, 0, o + 1, k1, close);
            let (e, c) = body_at(s1, o + 1, k1, close)->Ok_0;
            assert(m <= o);
            assert(o + 1 <= c < s1.len());
            lemma_entries_from_agree(s1, s2, m, c + 1);
            if w == "string"@ {
                assert(e is Variable);
            }
        }
    } else {
        if o < s1.len() {
            assert(s2[o] == s1[o]);
        }
        assert(entry_at(s1, 1) == entry_at(s2, 1));
    }
}

/// The type of a record is kept as written, in its own case: `@` + `k` +
/// `rest`, where `k` is no keyword, gives a record of type `k` first.
pub proof fn law_entry_type_kept(k: Seq<char>, rest: Seq<char>)
    requires
        k.len() > 0,
        all_ident(k),
        !keyword_eq(k, "comment"@),
        !keyword_eq(k, "preamble"@),
        !keyword_eq(k, "string"@),
        rest.len() > 0,
        !is_ident_char(rest[0]),
    ensures
        parse_model(seq!['@'] + k + rest) matches Ok(x) ==> (x.len() > 0 && (x[0] matches EntryModel::Bibliography(ty, _, _) && ty == k)),
{
    let s = seq!['@'] + k + rest;
    lemma_keyword_read(s, k, rest);
}

/// The texts of `ps`, written one after the other.
pub open spec fn join(ps: Seq<Seq<char>>) -> Seq<char>
    decreases ps.len(),
{
    if ps.len() == 0 {
        seq![]
    } else {
        join(ps.drop_last()) + ps.last()
    }
}

/// Texts that each hold one entry, written one after the other, give those
/// entries in the same order: one entry for each `@` construct, and none for
/// the text between them.
pub proof fn law_entries_in_order(ps: Seq<Seq<char>>, es: Seq<EntryModel>)
    requires
        ps.len() == es.len(),
        forall|i: int| 0 <= i < ps.len() ==> parse_model(#[trigger] ps[i]) == Ok::<
            Seq<EntryModel>,
            ErrorKind,
        >(seq![es[i]]),
    ensures
        parse_model(join(ps)) == Ok::<Seq<EntryModel>, ErrorKind>(es),
    decreases ps.len(),
{
    if ps.len() == 0 {
        assert(es =~= seq![]);
    } else {
        let n = ps.len() - 1;
        assert forall|i: int| 0 <= i < ps.drop_last().len() implies parse_model(
            #[trigger] ps.drop_last()[i],
        ) == Ok::<Seq<EntryModel>, ErrorKind>(seq![es.drop_last()[i]]) by {
            assert(ps.drop_last()[i] == ps[i]);
        }
        law_entries_in_order(ps.drop_last(), es.drop_last());
        assert(parse_model(ps[n]) == Ok::<Seq<EntryModel>, ErrorKind>(seq![es[n]]));
        law_concatenation(join(ps.drop_last()), ps.last());
        assert(es.drop_last() + seq![es[n]] =~= es);
    }
}

} // verus!
