//! Best-effort static reading of Gradle build scripts (Groovy and Kotlin DSL).
//!
//! This is a string and brace scanner rather than a real Gradle parser: it
//! handles the conventional shapes that nearly all Android projects use.
//!
//! Every entry point first removes comments; the scanners then walk the
//! remaining characters, matching block names only at the top level (brace
//! depth zero) of the text they are given.
use vstd::prelude::*;
use crate::text::{
    chars_of, char_is_alphabetic, char_is_alphanumeric, contains, contains_exec, eq,
    find_char_from, find_from_exec, is_whitespace, is_ws,
    lemma_find_from, lines, lines_of, occurs_at, occurs_at_exec, slice_copy, starts_with,
    starts_with_exec, string_of, trim, trim_chars, unicode_alphabetic, unicode_alphanumeric,
};

verus! {

// ---------------------------------------------------------------------------
// Comment removal
// ---------------------------------------------------------------------------

/// Where the comment remover stands.
pub enum CommentState {
    Code,
    LineComment,
    BlockComment,
}

/// The characters of `t[i..]` kept by the comment remover in state `st`.
pub open spec fn strip_scan(t: Seq<char>, i: int, st: CommentState) -> Seq<char>
    decreases t.len() - i,
{
    if i < 0 || i >= t.len() {
        seq![]
    } else {
        match st {
            CommentState::Code => if i + 1 < t.len() && t[i] == '/' && t[i + 1] == '/' {
                strip_scan(t, i + 2, CommentState::LineComment)
            } else if i + 1 < t.len() && t[i] == '/' && t[i + 1] == '*' {
                strip_scan(t, i + 2, CommentState::BlockComment)
            } else {
                seq![t[i]] + strip_scan(t, i + 1, CommentState::Code)
            },
            CommentState::LineComment => if t[i] == '\n' {
                seq!['\n'] + strip_scan(t, i + 1, CommentState::Code)
            } else {
                strip_scan(t, i + 1, CommentState::LineComment)
            },
            CommentState::BlockComment => if i + 1 < t.len() {
                if t[i] == '*' && t[i + 1] == '/' {
                    strip_scan(t, i + 2, CommentState::Code)
                } else {
                    strip_scan(t, i + 1, CommentState::BlockComment)
                }
            } else {
                seq![]
            },
        }
    }
}

/// `s` without `//` line comments and `/* */` block comments; the line feed
/// that ends a line comment is kept, an unterminated block comment runs to
/// the end, and everything else is kept unchanged.
pub open spec fn stripped(s: Seq<char>) -> Seq<char> {
    strip_scan(s, 0, CommentState::Code)
}

/// The comment-free characters of `src`.
pub fn strip_chars(src: &str) -> (out: Vec<char>)
    ensures
        out@ == stripped(src@),
{
    let t = chars_of(src);
    let n = t.len();
    let mut out: Vec<char> = Vec::new();
    let mut i: usize = 0;
    while i < n
        invariant
            n == t@.len(),
            t@ == src@,
            i <= n,
            stripped(src@) == out@ + strip_scan(t@, i as int, CommentState::Code),
        decreases n - i,
    {
        let ghost i0 = i;
        if i + 1 < n && t[i] == '/' && t[i + 1] == '/' {
            i = i + 2;
            while i < n && t[i] != '\n'
                invariant
                    n == t@.len(),
                    i0 + 2 <= i <= n,
                    stripped(src@) == out@ + strip_scan(t@, i as int, CommentState::LineComment),
                decreases n - i,
            {
                i = i + 1;
            }
        } else if i + 1 < n && t[i] == '/' && t[i + 1] == '*' {
            i = i + 2;
            while i < n && i + 1 < n && !(t[i] == '*' && t[i + 1] == '/')
                invariant
                    n == t@.len(),
                    i0 + 2 <= i <= n,
                    stripped(src@) == out@ + strip_scan(t@, i as int, CommentState::BlockComment),
                decreases n - i,
            {
                i = i + 1;
            }
            if i >= n || i + 1 >= n {
                i = n;
            } else {
                i = i + 2;
            }
        } else {
            let c = t[i];
            out.push(c);
            proof {
                assert(out@ =~= out@.drop_last() + seq![t@[i as int]]);
            }
            i = i + 1;
        }
    }
    out
}

/// Remove `//` line comments and `/* */` block comments.
pub fn strip_comments(src: &str) -> (out: String)
    ensures
        out@ == stripped(src@),
{
    let v = strip_chars(src);
    string_of(&v)
}

// ---------------------------------------------------------------------------
// Blocks
// ---------------------------------------------------------------------------

/// Characters that may be part of an identifier.
pub open spec fn is_ident_char(c: char) -> bool {
    unicode_alphanumeric(c) || c == '_'
}

/// The first position at or after `j` that is not whitespace (the end of
/// `t` when there is none).
pub open spec fn skip_ws(t: Seq<char>, j: int) -> int
    decreases t.len() - j,
{
    if j < 0 || j >= t.len() {
        t.len() as int
    } else if is_whitespace(t[j]) {
        skip_ws(t, j + 1)
    } else {
        j
    }
}

/// The parenthesis matching the one at `i`, counting nesting from `depth`.
pub open spec fn closing_paren(t: Seq<char>, i: int, depth: int) -> Option<int>
    decreases t.len() - i,
{
    if i < 0 || i >= t.len() {
        None
    } else if t[i] == '(' {
        closing_paren(t, i + 1, depth + 1)
    } else if t[i] == ')' {
        if depth - 1 == 0 {
            Some(i)
        } else {
            closing_paren(t, i + 1, depth - 1)
        }
    } else {
        closing_paren(t, i + 1, depth)
    }
}

/// From `j`, skip whitespace and one optional `(...)` call group (with the
/// whitespace after it): the position of the `{` that must come next.
pub open spec fn next_open_brace(t: Seq<char>, j: int) -> Option<int> {
    let a = skip_ws(t, j);
    if 0 <= a < t.len() && t[a] == '{' {
        Some(a)
    } else if 0 <= a < t.len() && t[a] == '(' {
        match closing_paren(t, a, 0) {
            Some(c) => {
                let b = skip_ws(t, c + 1);
                if 0 <= b < t.len() && t[b] == '{' {
                    Some(b)
                } else {
                    None
                }
            },
            None => None,
        }
    } else {
        None
    }
}

/// The opening brace of a block named `n` whose name starts at `k`: the name
/// occurs there, is not the tail of a longer identifier, and is followed by
/// its `{` (see `next_open_brace`).
pub open spec fn block_header_at(t: Seq<char>, n: Seq<char>, k: int) -> Option<int> {
    if occurs_at(t, n, k) && (k == 0 || !is_ident_char(t[k - 1])) {
        next_open_brace(t, k + n.len())
    } else {
        None
    }
}

/// The nesting after `c` of a text at nesting `depth` before it.
pub open spec fn depth_after(depth: int, c: char) -> int {
    if c == '{' {
        depth + 1
    } else if c == '}' {
        depth - 1
    } else {
        depth
    }
}

/// The opening brace of the first top-level block named `n`, scanning from
/// `k` at brace nesting `depth`: names are matched only at nesting zero.
pub open spec fn block_scan(t: Seq<char>, n: Seq<char>, k: int, depth: int) -> Option<int>
    decreases t.len() - k,
{
    if k < 0 || k >= t.len() {
        None
    } else if depth == 0 && block_header_at(t, n, k) is Some {
        block_header_at(t, n, k)
    } else {
        block_scan(t, n, k + 1, depth_after(depth, t[k]))
    }
}

/// The brace matching the one at `i`, counting nesting from `depth`.
pub open spec fn closing_brace(t: Seq<char>, i: int, depth: int) -> Option<int>
    decreases t.len() - i,
{
    if i < 0 || i >= t.len() {
        None
    } else if t[i] == '{' {
        closing_brace(t, i + 1, depth + 1)
    } else if t[i] == '}' {
        if depth - 1 == 0 {
            Some(i)
        } else {
            closing_brace(t, i + 1, depth - 1)
        }
    } else {
        closing_brace(t, i + 1, depth)
    }
}

/// The text between the brace at `open` and its match.
pub open spec fn braced(t: Seq<char>, open: int) -> Option<Seq<char>> {
    match closing_brace(t, open, 0) {
        Some(c) => if 0 <= open < c {
            Some(t.subrange(open + 1, c))
        } else {
            None
        },
        None => None,
    }
}

/// The body of the first top-level block named `name` in `src` (comments
/// removed).
pub open spec fn block_body_of(src: Seq<char>, name: Seq<char>) -> Option<Seq<char>> {
    let t = stripped(src);
    match block_scan(t, name, 0, 0) {
        Some(o) => braced(t, o),
        None => None,
    }
}

/// A vector of characters read as a sequence.
pub open spec fn opt_chars(r: Option<Vec<char>>) -> Option<Seq<char>> {
    match r {
        Some(v) => Some(v@),
        None => None,
    }
}

/// A string read as a sequence.
pub open spec fn opt_string(r: Option<String>) -> Option<Seq<char>> {
    match r {
        Some(v) => Some(v@),
        None => None,
    }
}

fn is_ident(c: char) -> (r: bool)
    ensures
        r == is_ident_char(c),
{
    char_is_alphanumeric(c) || c == '_'
}

fn skip_ws_exec(t: &[char], start: usize) -> (r: usize)
    ensures
        r as int == skip_ws(t@, start as int),
{
    let mut j = start;
    while j < t.len() && is_ws(t[j])
        invariant
            start <= j,
            skip_ws(t@, start as int) == skip_ws(t@, j as int),
        decreases t@.len() - j,
    {
        j += 1;
    }
    if j >= t.len() {
        t.len()
    } else {
        j
    }
}

fn find_closing_paren(t: &[char], open: usize) -> (r: Option<usize>)
    ensures
        r matches Some(c) ==> closing_paren(t@, open as int, 0) == Some(c as int) && open < c
            < t@.len(),
        r is None ==> closing_paren(t@, open as int, 0) is None,
{
    let mut opens: usize = 0;
    let mut closes: usize = 0;
    let mut i = open;
    while i < t.len()
        invariant
            open <= i,
            opens + closes <= i - open,
            closing_paren(t@, open as int, 0) == closing_paren(
                t@,
                i as int,
                opens as int - closes as int,
            ),
        decreases t@.len() - i,
    {
        if t[i] == '(' {
            opens += 1;
        } else if t[i] == ')' {
            closes += 1;
            if opens == closes {
                return if open < i { Some(i) } else { None };
            }
        }
        i += 1;
    }
    None
}

fn find_open_brace(t: &[char], start: usize) -> (r: Option<usize>)
    ensures
        r matches Some(o) ==> next_open_brace(t@, start as int) == Some(o as int),
        r is None ==> next_open_brace(t@, start as int) is None,
{
    let a = skip_ws_exec(t, start);
    if a < t.len() && t[a] == '{' {
        Some(a)
    } else if a < t.len() && t[a] == '(' {
        match find_closing_paren(t, a) {
            Some(c) => {
                let b = skip_ws_exec(t, c + 1);
                if b < t.len() && t[b] == '{' {
                    Some(b)
                } else {
                    None
                }
            },
            None => None,
        }
    } else {
        None
    }
}

/// The opening brace of the first top-level block named `n` in `t`.
pub fn scan_block(t: &[char], n: &[char]) -> (r: Option<usize>)
    ensures
        r matches Some(o) ==> block_scan(t@, n@, 0, 0) == Some(o as int),
        r is None ==> block_scan(t@, n@, 0, 0) is None,
{
    let mut opens: usize = 0;
    let mut closes: usize = 0;
    let mut k: usize = 0;
    while k < t.len()
        invariant
            opens <= k,
            closes <= k,
            block_scan(t@, n@, 0, 0) == block_scan(t@, n@, k as int, opens as int - closes as int),
        decreases t@.len() - k,
    {
        if opens == closes && occurs_at_exec(t, n, k) && (k == 0 || !is_ident(t[k - 1])) {
            match find_open_brace(t, k + n.len()) {
                Some(o) => {
                    return Some(o);
                },
                None => {},
            }
        }
        if t[k] == '{' {
            opens += 1;
        } else if t[k] == '}' {
            closes += 1;
        }
        k += 1;
    }
    None
}

/// The text inside the brace at `open` and its match, when it has one.
pub fn extract_braced(t: &[char], open: usize) -> (r: Option<Vec<char>>)
    ensures
        opt_chars(r) == braced(t@, open as int),
{
    let mut opens: usize = 0;
    let mut closes: usize = 0;
    let mut i = open;
    while i < t.len()
        invariant
            open <= i,
            opens + closes <= i - open,
            closing_brace(t@, open as int, 0) == closing_brace(
                t@,
                i as int,
                opens as int - closes as int,
            ),
        decreases t@.len() - i,
    {
        if t[i] == '{' {
            opens += 1;
        } else if t[i] == '}' {
            closes += 1;
            if opens == closes {
                if open < i {
                    return Some(slice_copy(t, open + 1, i));
                } else {
                    return None;
                }
            }
        }
        i += 1;
    }
    None
}

/// The body of the first top-level block named `name` (the text inside its
/// outermost braces), comments removed.
pub fn block_body(src: &str, name: &str) -> (r: Option<String>)
    ensures
        opt_string(r) == block_body_of(src@, name@),
{
    let t = strip_chars(src);
    let n = chars_of(name);
    match scan_block(&t, &n) {
        None => None,
        Some(o) => match extract_braced(&t, o) {
            Some(b) => Some(string_of(&b)),
            None => None,
        },
    }
}

// ---------------------------------------------------------------------------
// Child blocks
// ---------------------------------------------------------------------------

/// The headers of the blocks directly inside a body, scanning from `i` at
/// nesting `depth` with a header token started at `tok`: each header is the
/// position where its token starts and the position of its `{`. A token
/// starts at the first character at depth 0 that is not whitespace
/// since the last brace, line feed or `;`.
pub open spec fn header_scan(t: Seq<char>, i: int, depth: int, tok: Option<int>) -> Seq<
    (int, int),
>
    decreases t.len() - i,
{
    if i < 0 || i >= t.len() {
        seq![]
    } else {
        let c = t[i];
        if c == '{' {
            let rest = header_scan(t, i + 1, depth + 1, None);
            if depth == 0 && tok is Some {
                seq![(tok->0, i)] + rest
            } else {
                rest
            }
        } else if c == '}' {
            header_scan(t, i + 1, depth - 1, None)
        } else if c == '\n' || c == ';' {
            header_scan(
                t,
                i + 1,
                depth,
                if depth == 0 {
                    None
                } else {
                    tok
                },
            )
        } else if depth == 0 && tok is None && !is_whitespace(c) {
            header_scan(t, i + 1, depth, Some(i))
        } else {
            header_scan(t, i + 1, depth, tok)
        }
    }
}

/// The headers of the blocks directly inside `t`.
pub open spec fn headers(t: Seq<char>) -> Seq<(int, int)> {
    header_scan(t, 0, 0, None)
}

/// The text between the first two occurrences of the quote `q`.
pub open spec fn quoted_arg(raw: Seq<char>, q: char) -> Option<Seq<char>> {
    match find_char_from(raw, q, 0) {
        Some(a) => match find_char_from(raw, q, a + 1) {
            Some(b) => Some(raw.subrange(a + 1, b)),
            None => None,
        },
        None => None,
    }
}

/// A bare identifier: non-empty, identifier characters only, starting with a
/// letter or `_`.
pub open spec fn bare_name(raw: Seq<char>) -> Option<Seq<char>> {
    let t = trim(raw);
    if t.len() > 0 && (forall|i: int| 0 <= i < t.len() ==> #[trigger] is_ident_char(t[i])) && (
    unicode_alphabetic(t[0]) || t[0] == '_') {
        Some(t)
    } else {
        None
    }
}

/// The block name in the text before a `{`: the first double-quoted argument,
/// else the first single-quoted one, else a bare identifier. `debug` gives
/// `debug`; `create("dev")` gives `dev`; `getByName('release')` gives `release`.
pub open spec fn block_name(raw: Seq<char>) -> Option<Seq<char>> {
    if quoted_arg(raw, '"') is Some {
        quoted_arg(raw, '"')
    } else if quoted_arg(raw, '\'') is Some {
        quoted_arg(raw, '\'')
    } else {
        bare_name(raw)
    }
}

/// The name a header declares.
pub open spec fn header_name(t: Seq<char>, h: (int, int)) -> Option<Seq<char>> {
    block_name(trim(t.subrange(h.0, h.1)))
}

/// The declared names of the headers `hs`, first occurrence kept.
pub open spec fn names_of(t: Seq<char>, hs: Seq<(int, int)>) -> Seq<Seq<char>>
    decreases hs.len(),
{
    if hs.len() == 0 {
        seq![]
    } else {
        let prev = names_of(t, hs.drop_last());
        match header_name(t, hs.last()) {
            Some(n) => if prev.contains(n) {
                prev
            } else {
                prev.push(n)
            },
            None => prev,
        }
    }
}

/// The names of the blocks directly inside `body` (comments removed).
pub open spec fn child_names_of(body: Seq<char>) -> Seq<Seq<char>> {
    let t = stripped(body);
    names_of(t, headers(t))
}

/// The `{` of the first header in `hs` declaring `name`.
pub open spec fn first_named(t: Seq<char>, hs: Seq<(int, int)>, name: Seq<char>) -> Option<int>
    decreases hs.len(),
{
    if hs.len() == 0 {
        None
    } else if header_name(t, hs[0]) == Some(name) {
        Some(hs[0].1)
    } else {
        first_named(t, hs.drop_first(), name)
    }
}

/// The body of the direct child block `name`: a top-level block of that name
/// if there is one, else the first child declared with that name.
pub open spec fn child_body_of(parent: Seq<char>, name: Seq<char>) -> Option<Seq<char>> {
    match block_body_of(parent, name) {
        Some(b) => Some(b),
        None => {
            let t = stripped(parent);
            match first_named(t, headers(t), name) {
                Some(o) => braced(t, o),
                None => None,
            }
        },
    }
}

/// The view of a vector of character vectors.
pub open spec fn views(v: Seq<Vec<char>>) -> Seq<Seq<char>> {
    v.map_values(|x: Vec<char>| x@)
}

/// The headers of the blocks directly inside `t`, as positions.
pub fn header_positions(t: &[char]) -> (r: Vec<(usize, usize)>)
    ensures
        r@.len() == headers(t@).len(),
        forall|j: int|
            0 <= j < r@.len() ==> (#[trigger] r@[j]).0 as int == headers(t@)[j].0 && r@[j].1 as int
                == headers(t@)[j].1 && r@[j].0 <= r@[j].1 <= t@.len(),
{
    let mut r: Vec<(usize, usize)> = Vec::new();
    let ghost mut acc: Seq<(int, int)> = seq![];
    let mut opens: usize = 0;
    let mut closes: usize = 0;
    let mut tok: Option<usize> = None;
    let mut i: usize = 0;
    while i < t.len()
        invariant
            i <= t@.len(),
            opens <= i,
            closes <= i,
            tok matches Some(s) ==> s < i,
            headers(t@) == acc + header_scan(
                t@,
                i as int,
                opens as int - closes as int,
                match tok {
                    Some(s) => Some(s as int),
                    None => None,
                },
            ),
            r@.len() == acc.len(),
            forall|j: int|
                0 <= j < r@.len() ==> (#[trigger] r@[j]).0 as int == acc[j].0 && r@[j].1 as int
                    == acc[j].1 && r@[j].0 <= r@[j].1 <= t@.len(),
        decreases t@.len() - i,
    {
        let c = t[i];
        if c == '{' {
            if opens == closes {
                match tok {
                    Some(s) => {
                        r.push((s, i));
                        proof {
                            acc = acc.push((s as int, i as int));
                        }
                    },
                    None => {},
                }
            }
            opens += 1;
            tok = None;
        } else if c == '}' {
            closes += 1;
            tok = None;
        } else if c == '\n' || c == ';' {
            if opens == closes {
                tok = None;
            }
        } else if opens == closes && tok.is_none() && !is_ws(c) {
            tok = Some(i);
        }
        proof {
            assert forall|x: Seq<(int, int)>, y: Seq<(int, int)>, z: (int, int)|
                #![trigger x + (seq![z] + y)]
                x + (seq![z] + y) == x.push(z) + y by {
                assert(x + (seq![z] + y) =~= x.push(z) + y);
            }
        }
        i += 1;
    }
    r
}

/// The first occurrence of the quote `q` and the next one after it.
fn quoted_arg_exec(raw: &[char], q: char) -> (r: Option<Vec<char>>)
    ensures
        opt_chars(r) == quoted_arg(raw@, q),
{
    let qs = [q];
    assert(qs@ == seq![q]);
    match find_from_exec(raw, &qs, 0) {
        Some(a) => {
            proof {
                lemma_find_from(raw@, seq![q], 0);
            }
            assert(a < raw@.len());
            assert(a < raw.len());
            match find_from_exec(raw, &qs, a + 1) {
                Some(b) => {
                    proof {
                        lemma_find_from(raw@, seq![q], a + 1);
                    }
                    Some(slice_copy(raw, a + 1, b))
                },
                None => None,
            }
        },
        None => None,
    }
}

/// Derive a block name from the text preceding a `{`.
pub fn parse_block_name(raw: &[char]) -> (r: Option<Vec<char>>)
    ensures
        opt_chars(r) == block_name(raw@),
{
    match quoted_arg_exec(raw, '"') {
        Some(v) => {
            return Some(v);
        },
        None => {},
    }
    match quoted_arg_exec(raw, '\'') {
        Some(v) => {
            return Some(v);
        },
        None => {},
    }
    let t = trim_chars(raw);
    if t.len() == 0 {
        return None;
    }
    let mut i: usize = 0;
    while i < t.len()
        invariant
            i <= t@.len(),
            t@ == trim(raw@),
            quoted_arg(raw@, '"') is None,
            quoted_arg(raw@, '\'') is None,
            forall|j: int| 0 <= j < i ==> #[trigger] is_ident_char(t@[j]),
        decreases t@.len() - i,
    {
        if !is_ident(t[i]) {
            assert(!is_ident_char(t@[i as int]));
            return None;
        }
        i += 1;
    }
    if char_is_alphabetic(t[0]) || t[0] == '_' {
        Some(t)
    } else {
        None
    }
}

/// Whether `v` holds a vector equal to `x`.
pub fn contains_chars(v: &Vec<Vec<char>>, x: &[char]) -> (r: bool)
    ensures
        r == views(v@).contains(x@),
{
    let mut i: usize = 0;
    while i < v.len()
        invariant
            i <= v@.len(),
            forall|j: int| 0 <= j < i ==> v@[j]@ != x@,
        decreases v@.len() - i,
    {
        if eq(&v[i], x) {
            assert(views(v@)[i as int] == x@);
            return true;
        }
        i += 1;
    }
    assert forall|j: int| 0 <= j < views(v@).len() implies views(v@)[j] != x@ by {
        assert(views(v@)[j] == v@[j]@);
    }
    false
}

/// The names of the blocks directly inside `t`, first occurrence kept.
fn names_in(t: &[char], hs: &Vec<(usize, usize)>) -> (r: Vec<Vec<char>>)
    requires
        hs@.len() == headers(t@).len(),
        forall|j: int|
            0 <= j < hs@.len() ==> (#[trigger] hs@[j]).0 as int == headers(t@)[j].0 && hs@[j].1 as int
                == headers(t@)[j].1 && hs@[j].0 <= hs@[j].1 <= t@.len(),
    ensures
        views(r@) == names_of(t@, headers(t@)),
{
    let ghost all = headers(t@);
    let mut names: Vec<Vec<char>> = Vec::new();
    let mut j: usize = 0;
    while j < hs.len()
        invariant
            j <= hs@.len() == all.len(),
            all == headers(t@),
            forall|k: int|
                0 <= k < hs@.len() ==> (#[trigger] hs@[k]).0 as int == all[k].0 && hs@[k].1 as int
                    == all[k].1 && hs@[k].0 <= hs@[k].1 <= t@.len(),
            views(names@) == names_of(t@, all.subrange(0, j as int)),
        decreases hs@.len() - j,
    {
        let (a, b) = hs[j];
        let raw = slice_copy(t, a, b);
        let tr = trim_chars(&raw);
        let nm = parse_block_name(&tr);
        proof {
            assert(all.subrange(0, j + 1).drop_last() =~= all.subrange(0, j as int));
            assert(all.subrange(0, j + 1).last() == all[j as int]);
        }
        match nm {
            Some(n) => {
                if !contains_chars(&names, &n) {
                    let ghost before = views(names@);
                    names.push(n);
                    assert(views(names@) =~= before.push(n@));
                }
            },
            None => {},
        }
        j += 1;
    }
    assert(all.subrange(0, hs@.len() as int) =~= all);
    names
}

/// Names of the blocks directly inside a body. Handles Groovy (`debug {`) and
/// Kotlin DSL (`create("debug") {`, `getByName("release") {`, `named("x") {`).
pub fn child_block_names(body: &str) -> (r: Vec<String>)
    ensures
        r@.map_values(|s: String| s@) == child_names_of(body@),
{
    let t = strip_chars(body);
    let hs = header_positions(&t);
    let names = names_in(&t, &hs);
    let mut out: Vec<String> = Vec::new();
    let mut i: usize = 0;
    while i < names.len()
        invariant
            i <= names@.len(),
            out@.len() == i,
            forall|k: int| 0 <= k < i ==> (#[trigger] out@[k])@ == names@[k]@,
        decreases names@.len() - i,
    {
        out.push(string_of(&names[i]));
        i += 1;
    }
    assert(out@.map_values(|s: String| s@) =~= views(names@));
    out
}

/// `first_named` skips headers that declare another name.
proof fn lemma_first_named_skip(
    t: Seq<char>,
    pre: Seq<(int, int)>,
    rest: Seq<(int, int)>,
    name: Seq<char>,
)
    requires
        forall|k: int| 0 <= k < pre.len() ==> header_name(t, #[trigger] pre[k]) != Some(name),
    ensures
        first_named(t, pre + rest, name) == first_named(t, rest, name),
    decreases pre.len(),
{
    if pre.len() > 0 {
        assert((pre + rest).drop_first() =~= pre.drop_first() + rest);
        assert((pre + rest)[0] == pre[0]);
        lemma_first_named_skip(t, pre.drop_first(), rest, name);
    } else {
        assert(pre + rest =~= rest);
    }
}

/// Body of the direct child block `name` within a parent body. Child
/// declarations may be `name {`, `create("name") {`, `getByName("name") {`.
pub fn child_block_body(parent: &str, name: &str) -> (r: Option<String>)
    ensures
        opt_string(r) == child_body_of(parent@, name@),
{
    match block_body(parent, name) {
        Some(b) => {
            return Some(b);
        },
        None => {},
    }
    let t = strip_chars(parent);
    let n = chars_of(name);
    let hs = header_positions(&t);
    let ghost all = headers(t@);
    let mut j: usize = 0;
    while j < hs.len()
        invariant
            j <= hs@.len() == all.len(),
            all == headers(t@),
            n@ == name@,
            t@ == stripped(parent@),
            block_body_of(parent@, name@) is None,
            forall|k: int|
                0 <= k < hs@.len() ==> (#[trigger] hs@[k]).0 as int == all[k].0 && hs@[k].1 as int
                    == all[k].1 && hs@[k].0 <= hs@[k].1 <= t@.len(),
            forall|k: int| 0 <= k < j ==> header_name(t@, #[trigger] all[k]) != Some(name@),
        decreases hs@.len() - j,
    {
        let (a, b) = hs[j];
        let raw = slice_copy(t.as_slice(), a, b);
        let tr = trim_chars(&raw);
        let nm = parse_block_name(&tr);
        let hit = match nm {
            Some(x) => eq(&x, &n),
            None => false,
        };
        if hit {
            assert(header_name(t@, all[j as int]) == Some(name@)) by {
                assert(raw@ == t@.subrange(all[j as int].0, all[j as int].1));
            }
            proof {
                lemma_first_named_skip(
                    t@,
                    all.subrange(0, j as int),
                    all.subrange(j as int, all.len() as int),
                    name@,
                );
                assert(all.subrange(0, j as int) + all.subrange(j as int, all.len() as int) =~= all);
                assert(all.subrange(j as int, all.len() as int)[0] == all[j as int]);
            }
            return match extract_braced(&t, b) {
                Some(x) => Some(string_of(&x)),
                None => None,
            };
        }
        j += 1;
    }
    proof {
        lemma_first_named_skip(t@, all, seq![], name@);
        assert(all + seq![] =~= all);
    }
    None
}

// ---------------------------------------------------------------------------
// Quoted tokens and assignments
// ---------------------------------------------------------------------------

/// The quoted strings of `l` from `i` on, `open` holding the quote and start of
/// a string being read. A string without its closing quote runs to the end.
pub open spec fn token_scan(l: Seq<char>, i: int, open: Option<(char, int)>) -> Seq<Seq<char>>
    decreases l.len() - i,
{
    if i < 0 || i >= l.len() {
        match open {
            Some((q, st)) => if 0 <= st <= l.len() {
                seq![l.subrange(st, l.len() as int)]
            } else {
                seq![]
            },
            None => seq![],
        }
    } else {
        match open {
            None => if l[i] == '"' || l[i] == '\'' {
                token_scan(l, i + 1, Some((l[i], i + 1)))
            } else {
                token_scan(l, i + 1, None)
            },
            Some((q, st)) => if l[i] == q {
                seq![l.subrange(st, i)] + token_scan(l, i + 1, None)
            } else {
                token_scan(l, i + 1, Some((q, st)))
            },
        }
    }
}

/// All single- or double-quoted string contents of a line, in order.
pub open spec fn quoted_tokens_of(l: Seq<char>) -> Seq<Seq<char>> {
    token_scan(l, 0, None)
}

/// Extract all single- or double-quoted string contents from a line.
pub fn quoted_tokens(line: &[char]) -> (r: Vec<Vec<char>>)
    ensures
        views(r@) == quoted_tokens_of(line@),
{
    let n = line.len();
    let mut tokens: Vec<Vec<char>> = Vec::new();
    let mut i: usize = 0;
    while i < n
        invariant
            n == line@.len(),
            i <= n,
            quoted_tokens_of(line@) == views(tokens@) + token_scan(line@, i as int, None),
        decreases n - i,
    {
        let c = line[i];
        if c == '"' || c == '\'' {
            let q = c;
            let mut tok: Vec<char> = Vec::new();
            i += 1;
            let st = i;
            while i < n && line[i] != q
                invariant
                    n == line@.len(),
                    st <= i <= n,
                    tok@ == line@.subrange(st as int, i as int),
                    quoted_tokens_of(line@) == views(tokens@) + token_scan(
                        line@,
                        i as int,
                        Some((q, st as int)),
                    ),
                decreases n - i,
            {
                tok.push(line[i]);
                i += 1;
                assert(tok@ =~= line@.subrange(st as int, i as int));
            }
            let ghost before = views(tokens@);
            tokens.push(tok);
            assert(views(tokens@) =~= before.push(line@.subrange(st as int, i as int)));
            if i < n {
                i += 1;
                assert(before + (seq![line@.subrange(st as int, (i - 1) as int)] + token_scan(
                    line@,
                    i as int,
                    None,
                )) =~= views(tokens@) + token_scan(line@, i as int, None));
            } else {
                assert(views(tokens@) =~= views(tokens@) + token_scan(line@, i as int, None));
            }
        } else {
            i += 1;
        }
    }
    assert(views(tokens@) + token_scan(line@, i as int, None) =~= views(tokens@));
    tokens
}

/// The value a trimmed line assigns to `key` (`key "v"`, `key = "v"` or
/// `key("v")`): the first quoted string after the key, which must be followed
/// directly by whitespace, `=` or `(`.
pub open spec fn assigned_in(t: Seq<char>, key: Seq<char>) -> Option<Seq<char>> {
    if starts_with(t, key) {
        let after = t.subrange(key.len() as int, t.len() as int);
        if after.len() > 0 && (is_whitespace(after[0]) || after[0] == '=' || after[0] == '(')
            && quoted_tokens_of(after).len() > 0 {
            Some(quoted_tokens_of(after)[0])
        } else {
            None
        }
    } else {
        None
    }
}

/// The first line of `ls` that assigns `key`, read after trimming.
pub open spec fn first_assignment(ls: Seq<Seq<char>>, key: Seq<char>) -> Option<Seq<char>>
    decreases ls.len(),
{
    if ls.len() == 0 {
        None
    } else {
        match assigned_in(trim(ls[0]), key) {
            Some(v) => Some(v),
            None => first_assignment(ls.drop_first(), key),
        }
    }
}

/// The value assigned to `key` in `body` (comments removed).
pub open spec fn string_assignment_of(body: Seq<char>, key: Seq<char>) -> Option<Seq<char>> {
    first_assignment(lines(stripped(body)), key)
}

fn assigned_in_exec(t: &[char], key: &[char]) -> (r: Option<Vec<char>>)
    ensures
        opt_chars(r) == assigned_in(t@, key@),
{
    if !starts_with_exec(t, key) {
        return None;
    }
    let after = slice_copy(t, key.len(), t.len());
    if after.len() == 0 {
        return None;
    }
    let c = after[0];
    if !(is_ws(c) || c == '=' || c == '(') {
        return None;
    }
    let toks = quoted_tokens(&after);
    if toks.len() == 0 {
        return None;
    }
    assert(views(toks@)[0] == toks@[0]@);
    Some(slice_copy(&toks[0], 0, toks[0].len()))
}

fn string_assignment_chars(t: &[char], key: &[char]) -> (r: Option<Vec<char>>)
    ensures
        opt_chars(r) == first_assignment(lines(t@), key@),
{
    let ls = lines_of(t);
    let ghost all = views(ls@);
    let mut i: usize = 0;
    assert(all.subrange(0, all.len() as int) =~= all);
    while i < ls.len()
        invariant
            i <= ls@.len() == all.len(),
            all == views(ls@),
            all == lines(t@),
            first_assignment(all, key@) == first_assignment(
                all.subrange(i as int, all.len() as int),
                key@,
            ),
        decreases ls@.len() - i,
    {
        let tl = trim_chars(&ls[i]);
        assert(all.subrange(i as int, all.len() as int)[0] == ls@[i as int]@);
        match assigned_in_exec(&tl, key) {
            Some(v) => {
                return Some(v);
            },
            None => {},
        }
        assert(all.subrange(i as int, all.len() as int).drop_first() =~= all.subrange(
            i + 1,
            all.len() as int,
        ));
        i += 1;
    }
    None
}

/// Read `key "value"` (Groovy) or `key = "value"` (Kotlin) within a body.
pub fn string_assignment(body: &str, key: &str) -> (r: Option<String>)
    ensures
        opt_string(r) == string_assignment_of(body@, key@),
{
    let t = strip_chars(body);
    let k = chars_of(key);
    match string_assignment_chars(&t, &k) {
        Some(v) => Some(string_of(&v)),
        None => None,
    }
}

// ---------------------------------------------------------------------------
// Settings scripts
// ---------------------------------------------------------------------------

/// The quoted tokens of the lines that mention `include`, in order.
pub open spec fn include_tokens(ls: Seq<Seq<char>>) -> Seq<Seq<char>>
    decreases ls.len(),
{
    if ls.len() == 0 {
        seq![]
    } else {
        include_tokens(ls.drop_last()) + if contains(ls.last(), "include"@) {
            quoted_tokens_of(ls.last())
        } else {
            seq![]
        }
    }
}

/// The tokens that start with `:`, first occurrence kept.
pub open spec fn module_paths(toks: Seq<Seq<char>>) -> Seq<Seq<char>>
    decreases toks.len(),
{
    if toks.len() == 0 {
        seq![]
    } else {
        let prev = module_paths(toks.drop_last());
        let x = toks.last();
        if starts_with(x, seq![':']) && !prev.contains(x) {
            prev.push(x)
        } else {
            prev
        }
    }
}

/// The modules `include`d by a settings script.
pub open spec fn included_modules_of(settings: Seq<char>) -> Seq<Seq<char>> {
    module_paths(include_tokens(lines(stripped(settings))))
}

/// Names of the modules `include`d in a settings script: every quoted `:path`
/// token on a line mentioning `include` (Groovy `include ':a', ':b'` and
/// Kotlin `include(":a")`), first occurrence kept.
pub fn included_modules(settings: &str) -> (r: Vec<String>)
    ensures
        r@.map_values(|s: String| s@) == included_modules_of(settings@),
{
    let t = strip_chars(settings);
    let ls = lines_of(&t);
    let inc = chars_of("include");
    let colon = [':'];
    assert(colon@ == seq![':']);
    let ghost all = views(ls@);
    let mut modules: Vec<Vec<char>> = Vec::new();
    let ghost mut seen: Seq<Seq<char>> = seq![];
    let mut i: usize = 0;
    while i < ls.len()
        invariant
            i <= ls@.len() == all.len(),
            all == views(ls@),
            inc@ == "include"@,
            colon@ == seq![':'],
            seen == include_tokens(all.subrange(0, i as int)),
            views(modules@) == module_paths(seen),
        decreases ls@.len() - i,
    {
        proof {
            assert(all.subrange(0, i + 1).drop_last() =~= all.subrange(0, i as int));
            assert(all.subrange(0, i + 1).last() == ls@[i as int]@);
        }
        if contains_exec(&ls[i], &inc) {
            let toks = quoted_tokens(&ls[i]);
            let ghost base = seen;
            let mut j: usize = 0;
            while j < toks.len()
                invariant
                    j <= toks@.len(),
                    colon@ == seq![':'],
                    seen == base + views(toks@).subrange(0, j as int),
                    views(modules@) == module_paths(seen),
                decreases toks@.len() - j,
            {
                let x = &toks[j];
                let ghost prev_seen = seen;
                proof {
                    seen = seen.push(x@);
                    assert(seen.drop_last() =~= prev_seen);
                    assert(seen =~= base + views(toks@).subrange(0, j + 1));
                }
                if starts_with_exec(x, &colon) && !contains_chars(&modules, x) {
                    let ghost before = views(modules@);
                    assert(x@.subrange(0, x@.len() as int) =~= x@);
                    modules.push(slice_copy(x, 0, x.len()));
                    assert(views(modules@) =~= before.push(x@));
                }
                j += 1;
            }
            assert(views(toks@).subrange(0, toks@.len() as int) =~= views(toks@));
        } else {
            assert(seen =~= seen + seq![]);
        }
        i += 1;
    }
    assert(all.subrange(0, all.len() as int) =~= all);
    let mut out: Vec<String> = Vec::new();
    let mut k: usize = 0;
    while k < modules.len()
        invariant
            k <= modules@.len(),
            out@.len() == k,
            forall|m: int| 0 <= m < k ==> (#[trigger] out@[m])@ == modules@[m]@,
        decreases modules@.len() - k,
    {
        out.push(string_of(&modules[k]));
        k += 1;
    }
    assert(out@.map_values(|s: String| s@) =~= views(modules@));
    out
}

/// The directory a settings line relocates the module `path` to:
/// `project(":m").projectDir = file("dir")` and its Groovy forms. The line
/// mentions `projectDir`, its first quoted token is the module path, and the
/// directory is its last quoted token.
pub open spec fn relocation_in(line: Seq<char>, path: Seq<char>) -> Option<Seq<char>> {
    let toks = quoted_tokens_of(line);
    if contains(line, "projectDir"@) && toks.len() >= 2 && toks[0] == path {
        Some(toks.last())
    } else {
        None
    }
}

/// The last relocation of `path` among the lines `ls`.
pub open spec fn last_relocation(ls: Seq<Seq<char>>, path: Seq<char>) -> Option<Seq<char>>
    decreases ls.len(),
{
    if ls.len() == 0 {
        None
    } else {
        match relocation_in(ls.last(), path) {
            Some(d) => Some(d),
            None => last_relocation(ls.drop_last(), path),
        }
    }
}

/// Where a settings script relocates the module `path`, if it does.
pub open spec fn project_dir_of(settings: Seq<char>, path: Seq<char>) -> Option<Seq<char>> {
    last_relocation(lines(stripped(settings)), path)
}

/// The custom project directory a settings script assigns to the module
/// `path` (`project(":m").projectDir = file("…")`); the last assignment wins.
pub fn project_dir(settings: &str, path: &str) -> (r: Option<String>)
    ensures
        opt_string(r) == project_dir_of(settings@, path@),
{
    let t = strip_chars(settings);
    let ls = lines_of(&t);
    let p = chars_of(path);
    let key = chars_of("projectDir");
    let ghost all = views(ls@);
    let mut found: Option<Vec<char>> = None;
    let mut i: usize = 0;
    while i < ls.len()
        invariant
            i <= ls@.len() == all.len(),
            all == views(ls@),
            key@ == "projectDir"@,
            opt_chars(found) == last_relocation(all.subrange(0, i as int), p@),
        decreases ls@.len() - i,
    {
        proof {
            assert(all.subrange(0, i + 1).drop_last() =~= all.subrange(0, i as int));
            assert(all.subrange(0, i + 1).last() == ls@[i as int]@);
        }
        let line = &ls[i];
        if contains_exec(line, &key) {
            let toks = quoted_tokens(line);
            if toks.len() >= 2 && eq(&toks[0], &p) {
                assert(views(toks@)[0] == toks@[0]@);
                assert(views(toks@).last() == toks@[toks@.len() - 1]@);
                let last = &toks[toks.len() - 1];
                found = Some(slice_copy(last, 0, last.len()));
            }
        }
        i += 1;
    }
    assert(all.subrange(0, all.len() as int) =~= all);
    match found {
        Some(v) => Some(string_of(&v)),
        None => None,
    }
}

// ---------------------------------------------------------------------------
// Plugins
// ---------------------------------------------------------------------------

/// The plugin id of the Android application plugin.
pub open spec fn app_plugin_id() -> Seq<char> {
    "com.android.application"@
}

/// `build_script` applies the Android application plugin, by id or through
/// one of the version-catalog `aliases` (`alias(libs.plugins.…)`).
pub open spec fn applies_app_plugin(build_script: Seq<char>, aliases: Seq<Seq<char>>) -> bool {
    let t = stripped(build_script);
    contains(t, app_plugin_id()) || exists|i: int|
        0 <= i < aliases.len() && contains(t, "alias("@ + #[trigger] aliases[i] + ")"@)
}

/// True when a build script applies the Android **application** plugin, by id
/// or by one of the catalog aliases resolved with
/// [`application_plugin_aliases`].
pub fn is_application_module(build_script: &str, aliases: &[String]) -> (r: bool)
    ensures
        r == applies_app_plugin(build_script@, aliases@.map_values(|s: String| s@)),
{
    let t = strip_chars(build_script);
    let id = chars_of("com.android.application");
    if contains_exec(&t, &id) {
        return true;
    }
    let ghost al = aliases@.map_values(|s: String| s@);
    let open = chars_of("alias(");
    let close = chars_of(")");
    let mut i: usize = 0;
    while i < aliases.len()
        invariant
            i <= aliases@.len() == al.len(),
            al == aliases@.map_values(|s: String| s@),
            open@ == "alias("@,
            close@ == ")"@,
            t@ == stripped(build_script@),
            !contains(t@, app_plugin_id()),
            forall|k: int| 0 <= k < i ==> !contains(t@, "alias("@ + #[trigger] al[k] + ")"@),
        decreases aliases@.len() - i,
    {
        let mut pat = slice_copy(&open, 0, open.len());
        let a = chars_of(aliases[i].as_str());
        let mut k: usize = 0;
        while k < a.len()
            invariant
                k <= a@.len(),
                pat@ == open@ + a@.subrange(0, k as int),
            decreases a@.len() - k,
        {
            pat.push(a[k]);
            k += 1;
            assert(pat@ =~= open@ + a@.subrange(0, k as int));
        }
        pat.push(')');
        assert(pat@ =~= "alias("@ + al[i as int] + ")"@) by {
            assert(a@.subrange(0, a@.len() as int) =~= a@);
            assert(close@ == seq![')']) by {
                reveal_strlit(")");
            }
        }
        if contains_exec(&t, &pat) {
            return true;
        }
        i += 1;
    }
    false
}

/// The accessor Gradle generates for a catalog plugin key: `-` and `_`
/// become `.`, under `libs.plugins.`.
pub open spec fn plugin_accessor(key: Seq<char>) -> Seq<char> {
    "libs.plugins."@ + key.map_values(|c: char| if c == '-' || c == '_' { '.' } else { c })
}

/// A `[plugins]` entry of a version catalog naming the application plugin:
/// `key = { id = "com.android.application", … }` or
/// `key = "com.android.application:version"`. Gives the accessor of `key`.
pub open spec fn catalog_entry_alias(t: Seq<char>) -> Option<Seq<char>> {
    match find_char_from(t, '=', 0) {
        Some(e) => {
            let key = trim(t.subrange(0, e));
            let toks = quoted_tokens_of(t.subrange(e + 1, t.len() as int));
            if key.len() > 0 && exists|i: int|
                0 <= i < toks.len() && (#[trigger] toks[i] == app_plugin_id() || starts_with(
                    toks[i],
                    app_plugin_id() + seq![':'],
                )) {
                Some(plugin_accessor(key))
            } else {
                None
            }
        },
        None => None,
    }
}

/// The application-plugin aliases of catalog lines `ls` from `i`, `in_plugins`
/// telling whether the `[plugins]` table is open.
pub open spec fn catalog_scan(ls: Seq<Seq<char>>, i: int, in_plugins: bool) -> Seq<Seq<char>>
    decreases ls.len() - i,
{
    if i < 0 || i >= ls.len() {
        seq![]
    } else {
        let t = trim(ls[i]);
        if starts_with(t, seq!['[']) {
            catalog_scan(ls, i + 1, t == "[plugins]"@)
        } else if in_plugins && catalog_entry_alias(t) is Some {
            seq![catalog_entry_alias(t)->0] + catalog_scan(ls, i + 1, in_plugins)
        } else {
            catalog_scan(ls, i + 1, in_plugins)
        }
    }
}

/// The accessors (`libs.plugins.…`) under which a version catalog
/// (`gradle/libs.versions.toml`) declares the Android application plugin.
pub open spec fn catalog_aliases_of(catalog: Seq<char>) -> Seq<Seq<char>> {
    catalog_scan(lines(catalog), 0, false)
}

fn catalog_entry_alias_exec(t: &[char]) -> (r: Option<Vec<char>>)
    ensures
        opt_chars(r) == catalog_entry_alias(t@),
{
    let eqs = ['='];
    assert(eqs@ == seq!['=']);
    let e = match find_from_exec(t, &eqs, 0) {
        Some(e) => e,
        None => {
            return None;
        },
    };
    proof {
        lemma_find_from(t@, seq!['='], 0);
    }
    assert(e < t.len());
    let key_raw = slice_copy(t, 0, e);
    let key = trim_chars(&key_raw);
    let rest = slice_copy(t, e + 1, t.len());
    let toks = quoted_tokens(&rest);
    if key.len() == 0 {
        return None;
    }
    let id = chars_of("com.android.application");
    let mut idc = chars_of("com.android.application");
    idc.push(':');
    let mut found = false;
    let mut i: usize = 0;
    while i < toks.len()
        invariant
            i <= toks@.len(),
            id@ == app_plugin_id(),
            idc@ == app_plugin_id() + seq![':'],
            found <==> exists|k: int|
                0 <= k < i && (#[trigger] views(toks@)[k] == app_plugin_id() || starts_with(
                    views(toks@)[k],
                    app_plugin_id() + seq![':'],
                )),
        decreases toks@.len() - i,
    {
        assert(views(toks@)[i as int] == toks@[i as int]@);
        if eq(&toks[i], &id) || starts_with_exec(&toks[i], &idc) {
            found = true;
        }
        i += 1;
    }
    if !found {
        return None;
    }
    let mut acc = chars_of("libs.plugins.");
    let ghost prefix = acc@;
    let mut k: usize = 0;
    while k < key.len()
        invariant
            k <= key@.len(),
            prefix == "libs.plugins."@,
            acc@ == prefix + key@.subrange(0, k as int).map_values(
                |c: char|
                    if c == '-' || c == '_' {
                        '.'
                    } else {
                        c
                    },
            ),
        decreases key@.len() - k,
    {
        let c = key[k];
        if c == '-' || c == '_' {
            acc.push('.');
        } else {
            acc.push(c);
        }
        k += 1;
        assert(acc@ =~= prefix + key@.subrange(0, k as int).map_values(
            |c: char|
                if c == '-' || c == '_' {
                    '.'
                } else {
                    c
                },
        ));
    }
    assert(key@.subrange(0, key@.len() as int) =~= key@);
    Some(acc)
}

/// The accessors (`libs.plugins.…`) under which a version catalog declares the
/// Android application plugin, so that modules applying it through
/// `alias(…)` are recognised.
pub fn application_plugin_aliases(catalog: &str) -> (r: Vec<String>)
    ensures
        r@.map_values(|s: String| s@) == catalog_aliases_of(catalog@),
{
    let c = chars_of(catalog);
    let ls = lines_of(&c);
    let ghost all = views(ls@);
    let plugins = chars_of("[plugins]");
    let bracket = ['['];
    assert(bracket@ == seq!['[']);
    let mut out: Vec<String> = Vec::new();
    let mut in_plugins = false;
    let mut i: usize = 0;
    while i < ls.len()
        invariant
            i <= ls@.len() == all.len(),
            all == views(ls@),
            all == lines(catalog@),
            plugins@ == "[plugins]"@,
            bracket@ == seq!['['],
            catalog_aliases_of(catalog@) == out@.map_values(|s: String| s@) + catalog_scan(
                all,
                i as int,
                in_plugins,
            ),
        decreases ls@.len() - i,
    {
        assert(all[i as int] == ls@[i as int]@);
        let t = trim_chars(&ls[i]);
        if starts_with_exec(&t, &bracket) {
            in_plugins = eq(&t, &plugins);
        } else if in_plugins {
            match catalog_entry_alias_exec(&t) {
                Some(a) => {
                    let ghost before = out@.map_values(|s: String| s@);
                    out.push(string_of(&a));
                    assert(out@.map_values(|s: String| s@) =~= before.push(a@));
                    assert(before + (seq![a@] + catalog_scan(all, i + 1, in_plugins)) =~= before.push(
                        a@,
                    ) + catalog_scan(all, i + 1, in_plugins));
                },
                None => {},
            }
        }
        i += 1;
    }
    assert(out@.map_values(|s: String| s@) + catalog_scan(all, i as int, in_plugins) =~= out@.map_values(
        |s: String| s@,
    ));
    out
}

// ---------------------------------------------------------------------------
// applicationId and flavors
// ---------------------------------------------------------------------------

/// The `applicationId` of a build script: the one assigned in its
/// `android.defaultConfig` block. Product-flavor overrides are not applied,
/// so without a `defaultConfig` there is no base id.
pub open spec fn application_id_of(build_script: Seq<char>) -> Option<Seq<char>> {
    match block_body_of(build_script, "android"@) {
        None => None,
        Some(a) => match block_body_of(a, "defaultConfig"@) {
            Some(dc) => string_assignment_of(dc, "applicationId"@),
            None => None,
        },
    }
}

/// The `applicationId` from a build script's `defaultConfig`, if declared.
/// Handles `applicationId "x"` (Groovy) and `applicationId = "x"` (Kotlin).
pub fn application_id(build_script: &str) -> (r: Option<String>)
    ensures
        opt_string(r) == application_id_of(build_script@),
{
    let android = match block_body(build_script, "android") {
        None => {
            return None;
        },
        Some(a) => a,
    };
    match block_body(android.as_str(), "defaultConfig") {
        Some(dc) => string_assignment(dc.as_str(), "applicationId"),
        None => None,
    }
}

/// The quoted names of the first `flavorDimensions` line of `ls` that has any.
pub open spec fn declared_order_in(ls: Seq<Seq<char>>) -> Seq<Seq<char>>
    decreases ls.len(),
{
    if ls.len() == 0 {
        seq![]
    } else {
        let t = trim(ls[0]);
        if starts_with(t, "flavorDimensions"@) && quoted_tokens_of(t).len() > 0 {
            quoted_tokens_of(t)
        } else {
            declared_order_in(ls.drop_first())
        }
    }
}

/// The declared dimension order of an `android` body: `flavorDimensions "a",
/// "b"` (Groovy), `flavorDimensions += listOf("a", "b")` or
/// `flavorDimensions("a", "b")` (Kotlin).
pub open spec fn declared_order_of(android_body: Seq<char>) -> Seq<Seq<char>> {
    declared_order_in(lines(stripped(android_body)))
}

/// Parse the declared dimension order from an `android` body.
pub fn declared_dimension_order(android_body: &str) -> (r: Vec<Vec<char>>)
    ensures
        views(r@) == declared_order_of(android_body@),
{
    let t = strip_chars(android_body);
    let ls = lines_of(&t);
    let key = chars_of("flavorDimensions");
    let ghost all = views(ls@);
    let mut i: usize = 0;
    assert(all.subrange(0, all.len() as int) =~= all);
    while i < ls.len()
        invariant
            i <= ls@.len() == all.len(),
            all == views(ls@),
            all == lines(t@),
            t@ == stripped(android_body@),
            key@ == "flavorDimensions"@,
            declared_order_in(all) == declared_order_in(all.subrange(i as int, all.len() as int)),
        decreases ls@.len() - i,
    {
        assert(all.subrange(i as int, all.len() as int)[0] == ls@[i as int]@);
        let tl = trim_chars(&ls[i]);
        if starts_with_exec(&tl, &key) {
            let toks = quoted_tokens(&tl);
            if toks.len() > 0 {
                return toks;
            }
        }
        assert(all.subrange(i as int, all.len() as int).drop_first() =~= all.subrange(
            i + 1,
            all.len() as int,
        ));
        i += 1;
    }
    Vec::new()
}

/// The dimension a flavor declares (`dimension "x"`), or `__default__`.
pub open spec fn flavor_dimension(flavors_body: Seq<char>, name: Seq<char>) -> Seq<char> {
    let body = match child_body_of(flavors_body, name) {
        Some(b) => b,
        None => seq![],
    };
    match string_assignment_of(body, "dimension"@) {
        Some(d) => d,
        None => "__default__"@,
    }
}

/// Distinct elements in first-seen order.
pub open spec fn first_seen(s: Seq<Seq<char>>) -> Seq<Seq<char>>
    decreases s.len(),
{
    if s.len() == 0 {
        seq![]
    } else {
        let p = first_seen(s.drop_last());
        if p.contains(s.last()) {
            p
        } else {
            p.push(s.last())
        }
    }
}

/// The names whose dimension is `d`, in order (`dims[i]` is the dimension of
/// `names[i]`).
pub open spec fn group_of(names: Seq<Seq<char>>, dims: Seq<Seq<char>>, d: Seq<char>) -> Seq<
    Seq<char>,
>
    decreases names.len(),
{
    if names.len() == 0 || dims.len() == 0 {
        seq![]
    } else {
        let p = group_of(names.drop_last(), dims.drop_last(), d);
        if dims.last() == d {
            p.push(names.last())
        } else {
            p
        }
    }
}

/// Groups by dimension in `order`, empty groups left out.
pub open spec fn grouped(order: Seq<Seq<char>>, names: Seq<Seq<char>>, dims: Seq<Seq<char>>) -> Seq<
    Seq<Seq<char>>,
>
    decreases order.len(),
{
    if order.len() == 0 {
        seq![]
    } else {
        let p = grouped(order.drop_last(), names, dims);
        let g = group_of(names, dims, order.last());
        if g.len() > 0 {
            p.push(g)
        } else {
            p
        }
    }
}

/// The ordered flavor dimension groups of an `android` body.
pub open spec fn flavor_groups_of(android_body: Seq<char>) -> Seq<Seq<Seq<char>>> {
    match block_body_of(android_body, "productFlavors"@) {
        None => seq![],
        Some(fb) => {
            let names = child_names_of(fb);
            if names.len() == 0 {
                seq![]
            } else {
                let dims = names.map_values(|n: Seq<char>| flavor_dimension(fb, n));
                let declared = declared_order_of(android_body);
                let order = if declared.len() > 0 {
                    declared
                } else {
                    first_seen(dims)
                };
                grouped(order, names, dims)
            }
        },
    }
}

/// Characters of a vector of strings.
pub open spec fn string_views(v: Seq<String>) -> Seq<Seq<char>> {
    v.map_values(|s: String| s@)
}

/// Characters of groups of strings.
pub open spec fn group_views(v: Seq<Vec<String>>) -> Seq<Seq<Seq<char>>> {
    v.map_values(|g: Vec<String>| string_views(g@))
}

fn group_exec(names: &Vec<Vec<char>>, dims: &Vec<Vec<char>>, d: &[char]) -> (r: Vec<String>)
    requires
        names@.len() == dims@.len(),
    ensures
        string_views(r@) == group_of(views(names@), views(dims@), d@),
{
    let mut r: Vec<String> = Vec::new();
    let mut i: usize = 0;
    while i < names.len()
        invariant
            i <= names@.len() == dims@.len(),
            string_views(r@) == group_of(
                views(names@).subrange(0, i as int),
                views(dims@).subrange(0, i as int),
                d@,
            ),
        decreases names@.len() - i,
    {
        proof {
            assert(views(names@).subrange(0, i + 1).drop_last() =~= views(names@).subrange(
                0,
                i as int,
            ));
            assert(views(dims@).subrange(0, i + 1).drop_last() =~= views(dims@).subrange(
                0,
                i as int,
            ));
            assert(views(dims@).subrange(0, i + 1).last() == dims@[i as int]@);
            assert(views(names@).subrange(0, i + 1).last() == names@[i as int]@);
        }
        if eq(&dims[i], d) {
            let ghost before = string_views(r@);
            r.push(string_of(&names[i]));
            assert(string_views(r@) =~= before.push(names@[i as int]@));
        }
        i += 1;
    }
    assert(views(names@).subrange(0, names@.len() as int) =~= views(names@));
    assert(views(dims@).subrange(0, dims@.len() as int) =~= views(dims@));
    r
}

/// The ordered flavor dimension groups: one list per dimension, each holding
/// that dimension's flavor names in declaration order. Empty when there are
/// no product flavors.
pub fn flavor_dimensions(android_body: &str) -> (r: Vec<Vec<String>>)
    ensures
        group_views(r@) == flavor_groups_of(android_body@),
{
    let fb = match block_body(android_body, "productFlavors") {
        None => {
            return Vec::new();
        },
        Some(b) => b,
    };
    let names_s = child_block_names(fb.as_str());
    let ghost nm = child_names_of(fb@);
    if names_s.len() == 0 {
        assert(nm.len() == 0);
        return Vec::new();
    }
    // Dimension of each flavor, in declaration order.
    let mut names: Vec<Vec<char>> = Vec::new();
    let mut dims: Vec<Vec<char>> = Vec::new();
    let mut i: usize = 0;
    while i < names_s.len()
        invariant
            i <= names_s@.len() == nm.len(),
            nm == child_names_of(fb@),
            string_views(names_s@) == nm,
            names@.len() == i,
            dims@.len() == i,
            block_body_of(android_body@, "productFlavors"@) == Some(fb@),
            forall|k: int| 0 <= k < i ==> (#[trigger] names@[k])@ == nm[k],
            forall|k: int| 0 <= k < i ==> (#[trigger] dims@[k])@ == flavor_dimension(fb@, nm[k]),
        decreases names_s@.len() - i,
    {
        assert(string_views(names_s@)[i as int] == names_s@[i as int]@);
        let body = match child_block_body(fb.as_str(), names_s[i].as_str()) {
            Some(b) => b,
            None => String::new(),
        };
        let dim = match string_assignment(body.as_str(), "dimension") {
            Some(d) => chars_of(d.as_str()),
            None => chars_of("__default__"),
        };
        names.push(chars_of(names_s[i].as_str()));
        dims.push(dim);
        i += 1;
    }
    let ghost vn = views(names@);
    let ghost vd = views(dims@);
    assert(vn =~= nm);
    assert(vd =~= nm.map_values(|n: Seq<char>| flavor_dimension(fb@, n)));
    // Dimension order: declared, else first seen.
    let declared = declared_dimension_order(android_body);
    let order: Vec<Vec<char>> = if declared.len() > 0 {
        declared
    } else {
        let mut seen: Vec<Vec<char>> = Vec::new();
        let mut k: usize = 0;
        while k < dims.len()
            invariant
                k <= dims@.len(),
                views(seen@) == first_seen(views(dims@).subrange(0, k as int)),
            decreases dims@.len() - k,
        {
            proof {
                assert(views(dims@).subrange(0, k + 1).drop_last() =~= views(dims@).subrange(
                    0,
                    k as int,
                ));
                assert(views(dims@).subrange(0, k + 1).last() == dims@[k as int]@);
            }
            if !contains_chars(&seen, &dims[k]) {
                let ghost before = views(seen@);
                seen.push(slice_copy(&dims[k], 0, dims[k].len()));
                assert(dims@[k as int]@.subrange(0, dims@[k as int]@.len() as int) =~= dims@[k as int]@);
                assert(views(seen@) =~= before.push(dims@[k as int]@));
            }
            k += 1;
        }
        assert(views(dims@).subrange(0, dims@.len() as int) =~= views(dims@));
        seen
    };
    let ghost ord = views(order@);
    let mut groups: Vec<Vec<String>> = Vec::new();
    let mut j: usize = 0;
    while j < order.len()
        invariant
            j <= order@.len(),
            ord == views(order@),
            names@.len() == dims@.len(),
            group_views(groups@) == grouped(ord.subrange(0, j as int), views(names@), views(dims@)),
        decreases order@.len() - j,
    {
        proof {
            assert(ord.subrange(0, j + 1).drop_last() =~= ord.subrange(0, j as int));
            assert(ord.subrange(0, j + 1).last() == order@[j as int]@);
        }
        let g = group_exec(&names, &dims, &order[j]);
        if g.len() > 0 {
            let ghost before = group_views(groups@);
            groups.push(g);
            assert(group_views(groups@) =~= before.push(string_views(g@)));
        } else {
            assert(string_views(g@).len() == 0);
        }
        j += 1;
    }
    assert(ord.subrange(0, ord.len() as int) =~= ord);
    groups
}


// ---------------------------------------------------------------------------
// Laws
// ---------------------------------------------------------------------------

proof fn lemma_module_paths(toks: Seq<Seq<char>>)
    ensures
        module_paths(toks).no_duplicates(),
        forall|i: int|
            0 <= i < module_paths(toks).len() ==> starts_with(
                #[trigger] module_paths(toks)[i],
                seq![':'],
            ),
    decreases toks.len(),
{
    if toks.len() > 0 {
        lemma_module_paths(toks.drop_last());
    }
}

/// Every module `included_modules` lists begins with `:`, and none is listed
/// twice.
pub proof fn included_modules_are_distinct_paths(settings: Seq<char>)
    ensures
        included_modules_of(settings).no_duplicates(),
        forall|i: int|
            0 <= i < included_modules_of(settings).len() ==> starts_with(
                #[trigger] included_modules_of(settings)[i],
                seq![':'],
            ),
{
    lemma_module_paths(include_tokens(lines(stripped(settings))));
}

proof fn lemma_names_distinct(t: Seq<char>, hs: Seq<(int, int)>)
    ensures
        names_of(t, hs).no_duplicates(),
    decreases hs.len(),
{
    if hs.len() > 0 {
        lemma_names_distinct(t, hs.drop_last());
    }
}

/// `child_block_names` never lists a name twice.
pub proof fn child_block_names_are_distinct(body: Seq<char>)
    ensures
        child_names_of(body).no_duplicates(),
{
    let t = stripped(body);
    lemma_names_distinct(t, headers(t));
}

} // verus!
