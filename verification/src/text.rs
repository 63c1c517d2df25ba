//! Character-level text utilities shared by the parsers: whitespace, trimming,
//! line splitting, substring search, and conversions between `String` and
//! character vectors. Everything is stated over `Seq<char>`.
use vstd::prelude::*;

verus! {

// ---------------------------------------------------------------------------
// Specifications
// ---------------------------------------------------------------------------

/// The Unicode `White_Space` property (the complete list of code points).
pub open spec fn is_whitespace(c: char) -> bool {
    let u = c as u32;
    ||| 0x09 <= u <= 0x0d
    ||| u == 0x20
    ||| u == 0x85
    ||| u == 0xa0
    ||| u == 0x1680
    ||| 0x2000 <= u <= 0x200a
    ||| u == 0x2028
    ||| u == 0x2029
    ||| u == 0x202f
    ||| u == 0x205f
    ||| u == 0x3000
}

/// ASCII characters.
pub open spec fn is_ascii_char(c: char) -> bool {
    (c as u32) < 0x80
}

/// ASCII letters.
pub open spec fn is_ascii_letter(c: char) -> bool {
    ('a' <= c <= 'z') || ('A' <= c <= 'Z')
}

/// ASCII digits.
pub open spec fn is_ascii_digit(c: char) -> bool {
    '0' <= c <= '9'
}

/// What `char::is_alphanumeric` answers (Unicode tables).
pub uninterp spec fn unicode_alphanumeric(c: char) -> bool;

/// What `char::is_alphabetic` answers (Unicode tables).
pub uninterp spec fn unicode_alphabetic(c: char) -> bool;

/// What `char::to_uppercase` yields (Unicode case mapping).
pub uninterp spec fn unicode_uppercase(c: char) -> Seq<char>;

/// What `str::to_lowercase` yields (Unicode case mapping, with the
/// context-dependent final sigma).
pub uninterp spec fn unicode_lowercase(s: Seq<char>) -> Seq<char>;

/// All ASCII characters.
pub open spec fn is_ascii_text(s: Seq<char>) -> bool {
    forall|i: int| 0 <= i < s.len() ==> is_ascii_char(#[trigger] s[i])
}

/// ASCII upper-case letters lowered, everything else kept.
pub open spec fn ascii_lowercase(s: Seq<char>) -> Seq<char> {
    s.map_values(|c: char| if 'A' <= c <= 'Z' { ((c as u32) + 32) as char } else { c })
}

/// Leading whitespace removed.
pub open spec fn trim_start(s: Seq<char>) -> Seq<char>
    decreases s.len(),
{
    if s.len() > 0 && is_whitespace(s[0]) {
        trim_start(s.drop_first())
    } else {
        s
    }
}

/// Trailing whitespace removed.
pub open spec fn trim_end(s: Seq<char>) -> Seq<char>
    decreases s.len(),
{
    if s.len() > 0 && is_whitespace(s.last()) {
        trim_end(s.drop_last())
    } else {
        s
    }
}

/// Leading and trailing whitespace removed (`str::trim`).
pub open spec fn trim(s: Seq<char>) -> Seq<char> {
    trim_end(trim_start(s))
}

/// `s` begins with `p`.
pub open spec fn starts_with(s: Seq<char>, p: Seq<char>) -> bool {
    p.len() <= s.len() && s.subrange(0, p.len() as int) == p
}

/// `s` ends with `p`.
pub open spec fn ends_with(s: Seq<char>, p: Seq<char>) -> bool {
    p.len() <= s.len() && s.subrange(s.len() - p.len(), s.len() as int) == p
}

/// `n` occurs in `h` at position `i`.
pub open spec fn occurs_at(h: Seq<char>, n: Seq<char>, i: int) -> bool {
    0 <= i && i + n.len() <= h.len() && h.subrange(i, i + n.len()) == n
}

/// `n` occurs somewhere in `h`.
pub open spec fn contains(h: Seq<char>, n: Seq<char>) -> bool {
    exists|i: int| occurs_at(h, n, i)
}

/// The first position at or after `from` where `n` occurs in `h`.
pub open spec fn find_from(h: Seq<char>, n: Seq<char>, from: int) -> Option<int>
    decreases h.len() + 1 - from,
{
    if from < 0 || from + n.len() > h.len() {
        None
    } else if occurs_at(h, n, from) {
        Some(from)
    } else {
        find_from(h, n, from + 1)
    }
}

/// The first position where `n` occurs in `h` (`str::find`, in characters).
pub open spec fn find(h: Seq<char>, n: Seq<char>) -> Option<int> {
    find_from(h, n, 0)
}

/// The first position at or after `from` holding `c`.
pub open spec fn find_char_from(h: Seq<char>, c: char, from: int) -> Option<int> {
    find_from(h, seq![c], from)
}

/// One line as `str::lines` yields it: the line feed is dropped, and so is a
/// carriage return just before it.
pub open spec fn strip_cr(line: Seq<char>) -> Seq<char> {
    if line.len() > 0 && line.last() == '\r' {
        line.drop_last()
    } else {
        line
    }
}

/// The lines of `s` from position `start` on (`str::lines`).
pub open spec fn lines_from(s: Seq<char>, start: int) -> Seq<Seq<char>>
    decreases s.len() - start,
{
    if start < 0 || start >= s.len() {
        seq![]
    } else {
        match find_char_from(s, '\n', start) {
            Some(e) => if e < start || e >= s.len() {
                seq![]
            } else {
                seq![strip_cr(s.subrange(start, e))] + lines_from(s, e + 1)
            },
            None => seq![s.subrange(start, s.len() as int)],
        }
    }
}

/// The lines of `s` (`str::lines`).
pub open spec fn lines(s: Seq<char>) -> Seq<Seq<char>> {
    lines_from(s, 0)
}

/// First character upper-cased by ASCII rules (`a`..`z` only), the rest
/// untouched.
pub open spec fn ascii_capitalized(s: Seq<char>) -> Seq<char> {
    if s.len() > 0 && 'a' <= s[0] <= 'z' {
        seq![((s[0] as u32) - 32) as char] + s.drop_first()
    } else {
        s
    }
}

/// First character upper-cased by Unicode rules, the rest untouched.
pub open spec fn capitalize(s: Seq<char>) -> Seq<char> {
    if s.len() == 0 {
        seq![]
    } else {
        unicode_uppercase(s[0]) + s.drop_first()
    }
}

/// Repeated leading occurrences of `p` removed (`str::trim_start_matches`).
pub open spec fn trim_start_matches(s: Seq<char>, p: Seq<char>) -> Seq<char>
    decreases s.len(),
{
    if p.len() > 0 && starts_with(s, p) {
        trim_start_matches(s.subrange(p.len() as int, s.len() as int), p)
    } else {
        s
    }
}

/// Repeated leading `c` removed.
pub open spec fn trim_start_char(s: Seq<char>, c: char) -> Seq<char>
    decreases s.len(),
{
    if s.len() > 0 && s[0] == c {
        trim_start_char(s.drop_first(), c)
    } else {
        s
    }
}

/// Repeated trailing `c` removed.
pub open spec fn trim_end_char(s: Seq<char>, c: char) -> Seq<char>
    decreases s.len(),
{
    if s.len() > 0 && s.last() == c {
        trim_end_char(s.drop_last(), c)
    } else {
        s
    }
}

/// Repeated `c` removed at both ends (`str::trim_matches` with a character).
pub open spec fn trim_char(s: Seq<char>, c: char) -> Seq<char> {
    trim_end_char(trim_start_char(s, c), c)
}

/// The first whitespace-separated word (`split_whitespace().next()`).
pub open spec fn first_word(s: Seq<char>) -> Option<Seq<char>> {
    let t = trim_start(s);
    if t.len() == 0 {
        None
    } else {
        match first_ws(t, 0) {
            Some(e) => Some(t.subrange(0, e)),
            None => Some(t),
        }
    }
}

/// The first whitespace position at or after `i`.
pub open spec fn first_ws(s: Seq<char>, i: int) -> Option<int>
    decreases s.len() - i,
{
    if i < 0 || i >= s.len() {
        None
    } else if is_whitespace(s[i]) {
        Some(i)
    } else {
        first_ws(s, i + 1)
    }
}

/// The whitespace-separated words of `s` from position `i` on
/// (`split_whitespace`).
pub open spec fn words_from(s: Seq<char>, i: int) -> Seq<Seq<char>>
    decreases s.len() - i,
{
    if i < 0 || i >= s.len() {
        seq![]
    } else if is_whitespace(s[i]) {
        words_from(s, i + 1)
    } else {
        let e = match first_ws(s, i) {
            Some(e) => e,
            None => s.len() as int,
        };
        proof {
            lemma_first_ws(s, i);
        }
        seq![s.subrange(i, e)] + words_from(s, e)
    }
}

/// The whitespace-separated words of `s`.
pub open spec fn words(s: Seq<char>) -> Seq<Seq<char>> {
    words_from(s, 0)
}

/// Where `first_ws` lands: a whitespace position at or after `i`, with none
/// in between.
pub proof fn lemma_first_ws(s: Seq<char>, i: int)
    requires
        0 <= i,
    ensures
        match first_ws(s, i) {
            Some(e) => i <= e < s.len() && is_whitespace(s[e]) && forall|k: int|
                i <= k < e ==> !is_whitespace(#[trigger] s[k]),
            None => forall|k: int| i <= k < s.len() ==> !is_whitespace(#[trigger] s[k]),
        },
    decreases s.len() - i,
{
    if i < s.len() && !is_whitespace(s[i]) {
        lemma_first_ws(s, i + 1);
    }
}

/// The text before the first `c`, or all of it (`split(c).next()`).
pub open spec fn before_char(s: Seq<char>, c: char) -> Seq<char> {
    match find_char_from(s, c, 0) {
        Some(i) => s.subrange(0, i),
        None => s,
    }
}

/// Every non-overlapping occurrence of `pat`, leftmost first, replaced by
/// `with` (`str::replace` with a non-empty pattern).
pub open spec fn replace_all(s: Seq<char>, pat: Seq<char>, with: Seq<char>) -> Seq<char>
    decreases s.len(),
{
    if pat.len() == 0 {
        s
    } else {
        match find(s, pat) {
            Some(i) => if 0 <= i && i + pat.len() <= s.len() {
                s.subrange(0, i) + with + replace_all(
                    s.subrange(i + pat.len(), s.len() as int),
                    pat,
                    with,
                )
            } else {
                s
            },
            None => s,
        }
    }
}

/// The parts before and after the first occurrence of `pat`
/// (`str::split_once`).
pub open spec fn split_once(s: Seq<char>, pat: Seq<char>) -> Option<(Seq<char>, Seq<char>)> {
    match find(s, pat) {
        Some(i) => Some((s.subrange(0, i), s.subrange(i + pat.len(), s.len() as int))),
        None => None,
    }
}

// ---------------------------------------------------------------------------
// Lemmas
// ---------------------------------------------------------------------------

/// `find_from` returns a real occurrence at or after `from`, and none before it.
pub proof fn lemma_find_from(h: Seq<char>, n: Seq<char>, from: int)
    requires
        0 <= from,
    ensures
        find_from(h, n, from) matches Some(i) ==> from <= i && occurs_at(h, n, i) && forall|
            j: int,
        | from <= j < i ==> !occurs_at(h, n, j),
        find_from(h, n, from) is None ==> forall|j: int| from <= j ==> !occurs_at(h, n, j),
    decreases h.len() + 1 - from,
{
    if from + n.len() > h.len() {
    } else if occurs_at(h, n, from) {
    } else {
        lemma_find_from(h, n, from + 1);
    }
}

// ---------------------------------------------------------------------------
// Outside functions
// ---------------------------------------------------------------------------

/// `String::push`: claimed to append exactly the one character.
#[verifier::external_body]
pub(crate) fn push_char(s: &mut String, c: char)
    ensures
        final(s)@ == old(s)@.push(c),
{
    s.push(c);
}

/// `char::is_alphanumeric`: Unicode alphabetic or numeric. On ASCII it holds
/// exactly for letters and digits.
#[verifier::external_body]
pub(crate) fn char_is_alphanumeric(c: char) -> (r: bool)
    ensures
        r == unicode_alphanumeric(c),
        is_ascii_char(c) ==> (r <==> (is_ascii_letter(c) || is_ascii_digit(c))),
{
    c.is_alphanumeric()
}

/// `char::is_alphabetic`: the Unicode `Alphabetic` property. On ASCII it holds
/// exactly for letters.
#[verifier::external_body]
pub(crate) fn char_is_alphabetic(c: char) -> (r: bool)
    ensures
        r == unicode_alphabetic(c),
        is_ascii_char(c) ==> (r <==> is_ascii_letter(c)),
{
    c.is_alphabetic()
}

/// `char::to_uppercase`, collected. ASCII lower-case letters map to their
/// upper-case letter, every other ASCII character to itself.
#[verifier::external_body]
pub(crate) fn char_to_uppercase(c: char) -> (r: Vec<char>)
    ensures
        r@ == unicode_uppercase(c),
        'a' <= c <= 'z' ==> r@ == seq![((c as u32) - 32) as char],
        is_ascii_char(c) && !('a' <= c <= 'z') ==> r@ == seq![c],
{
    c.to_uppercase().collect()
}

/// `str::to_lowercase`. On ASCII text it lowers exactly the upper-case
/// letters.
#[verifier::external_body]
pub(crate) fn str_to_lowercase(s: &str) -> (r: String)
    ensures
        r@ == unicode_lowercase(s@),
        is_ascii_text(s@) ==> r@ == ascii_lowercase(s@),
{
    s.to_lowercase()
}

// ---------------------------------------------------------------------------
// Executable helpers
// ---------------------------------------------------------------------------

/// The characters of a string, in order.
pub fn chars_of(s: &str) -> (v: Vec<char>)
    ensures
        v@ == s@,
{
    let mut v: Vec<char> = Vec::new();
    for c in it: s.chars()
        invariant
            v@ == it.seq().take(it.index() as int),
            it.seq() == s@,
    {
        v.push(c);
    }
    v
}

/// A string holding exactly the given characters.
pub fn string_of(v: &[char]) -> (s: String)
    ensures
        s@ == v@,
{
    let mut s = String::new();
    let mut i: usize = 0;
    while i < v.len()
        invariant
            i <= v@.len(),
            s@ == v@.subrange(0, i as int),
        decreases v@.len() - i,
    {
        push_char(&mut s, v[i]);
        i += 1;
        assert(s@ =~= v@.subrange(0, i as int));
    }
    assert(s@ =~= v@);
    s
}

/// A copy of `v[from..to]`.
pub fn slice_copy(v: &[char], from: usize, to: usize) -> (r: Vec<char>)
    requires
        from <= to <= v@.len(),
    ensures
        r@ == v@.subrange(from as int, to as int),
{
    let mut r: Vec<char> = Vec::new();
    let mut i = from;
    while i < to
        invariant
            from <= i <= to <= v@.len(),
            r@ == v@.subrange(from as int, i as int),
        decreases to - i,
    {
        r.push(v[i]);
        i += 1;
        assert(r@ =~= v@.subrange(from as int, i as int));
    }
    r
}

/// Character equality of two slices.
pub fn eq(a: &[char], b: &[char]) -> (r: bool)
    ensures
        r == (a@ == b@),
{
    if a.len() != b.len() {
        return false;
    }
    let mut i: usize = 0;
    while i < a.len()
        invariant
            a@.len() == b@.len(),
            i <= a@.len(),
            forall|j: int| 0 <= j < i ==> a@[j] == b@[j],
        decreases a@.len() - i,
    {
        if a[i] != b[i] {
            return false;
        }
        i += 1;
    }
    assert(a@ =~= b@);
    true
}

/// Unicode `White_Space` (`char::is_whitespace`).
pub fn is_ws(c: char) -> (r: bool)
    ensures
        r == is_whitespace(c),
{
    let u = c as u32;
    (0x09 <= u && u <= 0x0d) || u == 0x20 || u == 0x85 || u == 0xa0 || u == 0x1680 || (0x2000
        <= u && u <= 0x200a) || u == 0x2028 || u == 0x2029 || u == 0x202f || u == 0x205f || u
        == 0x3000
}

/// `str::trim` on characters.
pub fn trim_chars(s: &[char]) -> (r: Vec<char>)
    ensures
        r@ == trim(s@),
{
    let n = s.len();
    let mut a: usize = 0;
    assert(s@.subrange(0, n as int) =~= s@);
    while a < n && is_ws(s[a])
        invariant
            a <= n == s@.len(),
            trim_start(s@) == trim_start(s@.subrange(a as int, n as int)),
        decreases n - a,
    {
        assert(s@.subrange(a as int, n as int).drop_first() =~= s@.subrange(a + 1, n as int));
        a += 1;
    }
    assert(trim_start(s@) == s@.subrange(a as int, n as int));
    let mut b: usize = n;
    while b > a && is_ws(s[b - 1])
        invariant
            a <= b <= n == s@.len(),
            trim(s@) == trim_end(s@.subrange(a as int, b as int)),
        decreases b - a,
    {
        assert(s@.subrange(a as int, b as int).drop_last() =~= s@.subrange(a as int, b - 1));
        b -= 1;
    }
    slice_copy(s, a, b)
}

/// Whether `n` occurs in `h` at position `i`.
pub fn occurs_at_exec(h: &[char], n: &[char], i: usize) -> (r: bool)
    ensures
        r == occurs_at(h@, n@, i as int),
{
    if i > h.len() || n.len() > h.len() - i {
        return false;
    }
    let mut j: usize = 0;
    while j < n.len()
        invariant
            h.len() == h@.len(),
            n.len() == n@.len(),
            i + n@.len() <= h@.len(),
            j <= n@.len(),
            forall|k: int| 0 <= k < j ==> h@[i + k] == n@[k],
        decreases n@.len() - j,
    {
        if h[i + j] != n[j] {
            assert(h@.subrange(i as int, i + n@.len())[j as int] != n@[j as int]);
            return false;
        }
        j += 1;
    }
    assert(h@.subrange(i as int, i + n@.len()) =~= n@);
    true
}

/// `str::find` from a position, in characters.
pub fn find_from_exec(h: &[char], n: &[char], from: usize) -> (r: Option<usize>)
    ensures
        r matches Some(i) ==> find_from(h@, n@, from as int) == Some(i as int),
        r is None ==> find_from(h@, n@, from as int) is None,
{
    let mut i = from;
    if i > h.len() || n.len() > h.len() - i {
        return None;
    }
    if n.len() == 0 {
        assert(h@.subrange(from as int, from as int) =~= n@);
        return Some(from);
    }
    while i <= h.len() && n.len() <= h.len() - i
        invariant
            from <= i,
            h.len() == h@.len(),
            1 <= n.len() == n@.len(),
            find_from(h@, n@, from as int) == find_from(h@, n@, i as int),
        decreases h@.len() - i,
    {
        if occurs_at_exec(h, n, i) {
            return Some(i);
        }
        i += 1;
    }
    None
}

/// Whether `n` occurs in `h`.
pub fn contains_exec(h: &[char], n: &[char]) -> (r: bool)
    ensures
        r == contains(h@, n@),
{
    let r = find_from_exec(h, n, 0);
    proof {
        lemma_find_from(h@, n@, 0);
    }
    r.is_some()
}

/// Whether `s` begins with `p`.
pub fn starts_with_exec(s: &[char], p: &[char]) -> (r: bool)
    ensures
        r == starts_with(s@, p@),
{
    occurs_at_exec(s, p, 0)
}

/// `str::lines` on characters.
pub fn lines_of(s: &[char]) -> (r: Vec<Vec<char>>)
    ensures
        r@.map_values(|l: Vec<char>| l@) == lines(s@),
{
    let mut r: Vec<Vec<char>> = Vec::new();
    let mut start: usize = 0;
    let nl = ['\n'];
    assert(nl@ == seq!['\n']);
    while start < s.len()
        invariant
            start <= s@.len(),
            nl@ == seq!['\n'],
            lines(s@) == r@.map_values(|l: Vec<char>| l@) + lines_from(s@, start as int),
        decreases s@.len() - start,
    {
        let ghost before = r@.map_values(|l: Vec<char>| l@);
        match find_from_exec(s, &nl, start) {
            Some(e) => {
                proof {
                    lemma_find_from(s@, seq!['\n'], start as int);
                }
                let mut line = slice_copy(s, start, e);
                if line.len() > 0 && line[line.len() - 1] == '\r' {
                    line.pop();
                    assert(line@ =~= strip_cr(s@.subrange(start as int, e as int)));
                }
                r.push(line);
                assert(r@.map_values(|l: Vec<char>| l@) =~= before.push(
                    strip_cr(s@.subrange(start as int, e as int)),
                ));
                start = e + 1;
            },
            None => {
                let line = slice_copy(s, start, s.len());
                r.push(line);
                assert(r@.map_values(|l: Vec<char>| l@) =~= before.push(
                    s@.subrange(start as int, s@.len() as int),
                ));
                start = s.len();
            },
        }
    }
    assert(r@.map_values(|l: Vec<char>| l@) =~= lines(s@));
    r
}

/// Whether `s` ends with `p`.
pub fn ends_with_exec(s: &[char], p: &[char]) -> (r: bool)
    ensures
        r == ends_with(s@, p@),
{
    if p.len() > s.len() {
        return false;
    }
    let r = occurs_at_exec(s, p, s.len() - p.len());
    r
}

/// `str::trim_start_matches` with a string pattern.
pub fn trim_start_matches_exec(s: &[char], p: &[char]) -> (r: Vec<char>)
    ensures
        r@ == trim_start_matches(s@, p@),
{
    let n = s.len();
    if p.len() == 0 {
        return slice_copy(s, 0, n);
    }
    let mut a: usize = 0;
    assert(s@.subrange(0, n as int) =~= s@);
    while a <= n && p.len() <= n - a && occurs_at_exec(s, p, a)
        invariant
            a <= n == s@.len(),
            p@.len() > 0,
            trim_start_matches(s@, p@) == trim_start_matches(s@.subrange(a as int, n as int), p@),
        decreases n - a,
    {
        assert(s@.subrange(a as int, n as int).subrange(0, p@.len() as int) =~= s@.subrange(
            a as int,
            a + p@.len(),
        ));
        assert(s@.subrange(a as int, n as int).subrange(p@.len() as int, n - a) =~= s@.subrange(
            a + p@.len(),
            n as int,
        ));
        a = a + p.len();
    }
    proof {
        if a <= n && p@.len() <= n - a {
            assert(!occurs_at(s@, p@, a as int));
            if starts_with(s@.subrange(a as int, n as int), p@) {
                assert(s@.subrange(a as int, n as int).subrange(0, p@.len() as int) =~= s@.subrange(
                    a as int,
                    a + p@.len(),
                ));
            }
        }
    }
    slice_copy(s, a, n)
}

/// `str::trim_matches` with a character.
pub fn trim_char_exec(s: &[char], c: char) -> (r: Vec<char>)
    ensures
        r@ == trim_char(s@, c),
{
    let n = s.len();
    let mut a: usize = 0;
    assert(s@.subrange(0, n as int) =~= s@);
    while a < n && s[a] == c
        invariant
            a <= n == s@.len(),
            trim_start_char(s@, c) == trim_start_char(s@.subrange(a as int, n as int), c),
        decreases n - a,
    {
        assert(s@.subrange(a as int, n as int).drop_first() =~= s@.subrange(a + 1, n as int));
        a += 1;
    }
    assert(trim_start_char(s@, c) == s@.subrange(a as int, n as int));
    let mut b: usize = n;
    while b > a && s[b - 1] == c
        invariant
            a <= b <= n == s@.len(),
            trim_char(s@, c) == trim_end_char(s@.subrange(a as int, b as int), c),
        decreases b - a,
    {
        assert(s@.subrange(a as int, b as int).drop_last() =~= s@.subrange(a as int, b - 1));
        b -= 1;
    }
    slice_copy(s, a, b)
}

/// `split_whitespace().next()`.
pub fn first_word_exec(s: &[char]) -> (r: Option<Vec<char>>)
    ensures
        match r {
            Some(w) => first_word(s@) == Some(w@),
            None => first_word(s@) is None,
        },
{
    let n = s.len();
    let mut a: usize = 0;
    assert(s@.subrange(0, n as int) =~= s@);
    while a < n && is_ws(s[a])
        invariant
            a <= n == s@.len(),
            trim_start(s@) == trim_start(s@.subrange(a as int, n as int)),
        decreases n - a,
    {
        assert(s@.subrange(a as int, n as int).drop_first() =~= s@.subrange(a + 1, n as int));
        a += 1;
    }
    let ghost t = s@.subrange(a as int, n as int);
    assert(trim_start(s@) == t);
    if a == n {
        return None;
    }
    let mut e = a;
    while e < n && !is_ws(s[e])
        invariant
            a <= e <= n == s@.len(),
            t == s@.subrange(a as int, n as int),
            first_ws(t, 0) == first_ws(t, e - a),
        decreases n - e,
    {
        e += 1;
    }
    proof {
        if e < n {
            assert(first_ws(t, e - a) == Some(e - a));
            assert(t.subrange(0, e - a) =~= s@.subrange(a as int, e as int));
        } else {
            assert(first_ws(t, e - a) is None);
            assert(t =~= s@.subrange(a as int, e as int));
        }
    }
    Some(slice_copy(s, a, e))
}

/// `split(c).next()`.
pub fn before_char_exec(s: &[char], c: char) -> (r: Vec<char>)
    ensures
        r@ == before_char(s@, c),
{
    let cs = [c];
    assert(cs@ == seq![c]);
    match find_from_exec(s, &cs, 0) {
        Some(i) => {
            proof {
                lemma_find_from(s@, seq![c], 0);
            }
            slice_copy(s, 0, i)
        },
        None => {
            assert(s@.subrange(0, s@.len() as int) =~= s@);
            slice_copy(s, 0, s.len())
        },
    }
}

/// `str::replace`, for a non-empty pattern.
pub fn replace_all_exec(s: &[char], pat: &[char], with: &[char]) -> (r: Vec<char>)
    ensures
        r@ == replace_all(s@, pat@, with@),
{
    let n = s.len();
    if pat.len() == 0 {
        return slice_copy(s, 0, n);
    }
    let mut out: Vec<char> = Vec::new();
    let mut pos: usize = 0;
    assert(s@.subrange(0, n as int) =~= s@);
    while pos <= n
        invariant
            pos <= n == s@.len(),
            pat@.len() > 0,
            replace_all(s@, pat@, with@) == out@ + replace_all(
                s@.subrange(pos as int, n as int),
                pat@,
                with@,
            ),
        decreases n - pos,
    {
        let ghost rest = s@.subrange(pos as int, n as int);
        match find_from_exec(s, pat, pos) {
            Some(i) => {
                proof {
                    lemma_find_from(s@, pat@, pos as int);
                    lemma_find_shift(s@, pat@, pos as int);
                }
                assert(find(rest, pat@) == Some(i - pos));
                let mut k = pos;
                let ghost out0 = out@;
                while k < i
                    invariant
                        pos <= k <= i <= n == s@.len(),
                        out@ == out0 + s@.subrange(pos as int, k as int),
                    decreases i - k,
                {
                    out.push(s[k]);
                    k += 1;
                    assert(out@ =~= out0 + s@.subrange(pos as int, k as int));
                }
                let mut j: usize = 0;
                let ghost out1 = out@;
                while j < with.len()
                    invariant
                        j <= with@.len(),
                        out@ == out1 + with@.subrange(0, j as int),
                    decreases with@.len() - j,
                {
                    out.push(with[j]);
                    j += 1;
                    assert(out@ =~= out1 + with@.subrange(0, j as int));
                }
                assert(with@.subrange(0, with@.len() as int) =~= with@);
                assert(rest.subrange(0, i - pos) =~= s@.subrange(pos as int, i as int));
                assert(rest.subrange(i - pos + pat@.len(), rest.len() as int) =~= s@.subrange(
                    i + pat@.len(),
                    n as int,
                ));
                assert(out0 + (rest.subrange(0, i - pos) + with@ + replace_all(
                    rest.subrange(i - pos + pat@.len(), rest.len() as int),
                    pat@,
                    with@,
                )) =~= out@ + replace_all(
                    s@.subrange(i + pat@.len(), n as int),
                    pat@,
                    with@,
                ));
                pos = i + pat.len();
            },
            None => {
                proof {
                    lemma_find_from(s@, pat@, pos as int);
                    lemma_find_shift(s@, pat@, pos as int);
                }
                let mut k = pos;
                let ghost out0 = out@;
                while k < n
                    invariant
                        pos <= k <= n == s@.len(),
                        out@ == out0 + s@.subrange(pos as int, k as int),
                    decreases n - k,
                {
                    out.push(s[k]);
                    k += 1;
                    assert(out@ =~= out0 + s@.subrange(pos as int, k as int));
                }
                return out;
            },
        }
    }
    out
}

/// The whitespace-separated words of `s`.
pub fn words_exec(s: &[char]) -> (r: Vec<Vec<char>>)
    ensures
        r@.map_values(|w: Vec<char>| w@) == words(s@),
{
    let n = s.len();
    let mut r: Vec<Vec<char>> = Vec::new();
    let mut i: usize = 0;
    while i < n
        invariant
            i <= n == s@.len(),
            words(s@) == r@.map_values(|w: Vec<char>| w@) + words_from(s@, i as int),
        decreases n - i,
    {
        if is_ws(s[i]) {
            i += 1;
        } else {
            let mut e = i;
            proof {
                lemma_first_ws(s@, i as int);
            }
            while e < n && !is_ws(s[e])
                invariant
                    i <= e <= n == s@.len(),
                    first_ws(s@, i as int) == first_ws(s@, e as int),
                decreases n - e,
            {
                e += 1;
            }
            let ghost before = r@.map_values(|w: Vec<char>| w@);
            let w = slice_copy(s, i, e);
            r.push(w);
            assert(r@.map_values(|w: Vec<char>| w@) =~= before.push(s@.subrange(i as int, e as int)));
            assert(before.push(s@.subrange(i as int, e as int)) + words_from(s@, e as int) =~= before
                + (seq![s@.subrange(i as int, e as int)] + words_from(s@, e as int)));
            i = e;
        }
    }
    assert(words(s@) =~= r@.map_values(|w: Vec<char>| w@));
    r
}

/// `a` sorts strictly before `b` (lexicographic by character code, which is
/// the order of their UTF-8 bytes).
pub open spec fn seq_lt(a: Seq<char>, b: Seq<char>) -> bool
    decreases a.len(),
{
    if a.len() == 0 {
        b.len() > 0
    } else if b.len() == 0 {
        false
    } else if a[0] != b[0] {
        a[0] < b[0]
    } else {
        seq_lt(a.drop_first(), b.drop_first())
    }
}

/// `seq_lt` is irreflexive.
pub proof fn lemma_seq_lt_irreflexive(a: Seq<char>)
    ensures
        !seq_lt(a, a),
    decreases a.len(),
{
    if a.len() > 0 {
        lemma_seq_lt_irreflexive(a.drop_first());
    }
}

/// Of two different sequences, exactly one sorts before the other.
pub proof fn lemma_seq_lt_total(a: Seq<char>, b: Seq<char>)
    ensures
        a == b || seq_lt(a, b) || seq_lt(b, a),
        !(seq_lt(a, b) && seq_lt(b, a)),
    decreases a.len(),
{
    if a.len() > 0 && b.len() > 0 {
        if a[0] == b[0] {
            lemma_seq_lt_total(a.drop_first(), b.drop_first());
            if a.drop_first() == b.drop_first() {
                assert(a =~= seq![a[0]] + a.drop_first());
                assert(b =~= seq![b[0]] + b.drop_first());
            }
        }
    } else if a.len() == 0 && b.len() == 0 {
        assert(a =~= b);
    }
}

/// `seq_lt` is transitive.
pub proof fn lemma_seq_lt_transitive(a: Seq<char>, b: Seq<char>, c: Seq<char>)
    requires
        seq_lt(a, b),
        seq_lt(b, c),
    ensures
        seq_lt(a, c),
    decreases a.len(),
{
    if a.len() > 0 && a[0] == b[0] && b[0] == c[0] {
        lemma_seq_lt_transitive(a.drop_first(), b.drop_first(), c.drop_first());
    }
}

/// Whether `a` sorts strictly before `b`.
pub fn seq_lt_exec(a: &[char], b: &[char]) -> (r: bool)
    ensures
        r == seq_lt(a@, b@),
{
    let mut i: usize = 0;
    assert(a@.subrange(0, a@.len() as int) =~= a@);
    assert(b@.subrange(0, b@.len() as int) =~= b@);
    while i < a.len() && i < b.len() && a[i] == b[i]
        invariant
            i <= a@.len(),
            i <= b@.len(),
            seq_lt(a@, b@) == seq_lt(
                a@.subrange(i as int, a@.len() as int),
                b@.subrange(i as int, b@.len() as int),
            ),
        decreases a@.len() - i,
    {
        assert(a@.subrange(i as int, a@.len() as int).drop_first() =~= a@.subrange(
            i + 1,
            a@.len() as int,
        ));
        assert(b@.subrange(i as int, b@.len() as int).drop_first() =~= b@.subrange(
            i + 1,
            b@.len() as int,
        ));
        i += 1;
    }
    if i == a.len() {
        i < b.len()
    } else if i == b.len() {
        false
    } else {
        a[i] < b[i]
    }
}

/// `s` without leading `c`s.
pub fn trim_start_char_exec(s: &[char], c: char) -> (r: Vec<char>)
    ensures
        r@ == trim_start_char(s@, c),
{
    let n = s.len();
    let mut a: usize = 0;
    assert(s@.subrange(0, n as int) =~= s@);
    while a < n && s[a] == c
        invariant
            a <= n == s@.len(),
            trim_start_char(s@, c) == trim_start_char(s@.subrange(a as int, n as int), c),
        decreases n - a,
    {
        assert(s@.subrange(a as int, n as int).drop_first() =~= s@.subrange(a + 1, n as int));
        a += 1;
    }
    slice_copy(s, a, n)
}

/// `s` without trailing `c`s.
pub fn trim_end_char_exec(s: &[char], c: char) -> (r: Vec<char>)
    ensures
        r@ == trim_end_char(s@, c),
{
    let n = s.len();
    let mut b: usize = n;
    assert(s@.subrange(0, n as int) =~= s@);
    while b > 0 && s[b - 1] == c
        invariant
            b <= n == s@.len(),
            trim_end_char(s@, c) == trim_end_char(s@.subrange(0, b as int), c),
        decreases b,
    {
        assert(s@.subrange(0, b as int).drop_last() =~= s@.subrange(0, b - 1));
        b -= 1;
    }
    slice_copy(s, 0, b)
}

/// `find` on a suffix, shifted back to positions of the whole.
pub proof fn lemma_find_shift(h: Seq<char>, n: Seq<char>, from: int)
    requires
        0 <= from <= h.len(),
    ensures
        find(h.subrange(from, h.len() as int), n) == match find_from(h, n, from) {
            Some(i) => Some(i - from),
            None => None,
        },
{
    let rest = h.subrange(from, h.len() as int);
    assert forall|j: int| #![trigger occurs_at(rest, n, j)] 0 <= j implies occurs_at(rest, n, j)
        == occurs_at(h, n, j + from) by {
        if j + n.len() <= rest.len() {
            assert(rest.subrange(j, j + n.len()) =~= h.subrange(j + from, j + from + n.len()));
        }
    }
    lemma_find_from(rest, n, 0);
    lemma_find_from(h, n, from);
    match find_from(h, n, from) {
        Some(i) => {
            assert(occurs_at(rest, n, i - from));
            match find_from(rest, n, 0) {
                Some(k) => {
                    if k < i - from {
                        assert(occurs_at(h, n, k + from));
                    }
                    assert(k == i - from);
                },
                None => {
                    assert(!occurs_at(rest, n, i - from));
                },
            }
        },
        None => {
            match find_from(rest, n, 0) {
                Some(k) => {
                    assert(occurs_at(h, n, k + from));
                },
                None => {},
            }
        },
    }
}

/// `str::split_once` with a string pattern.
pub fn split_once_exec(s: &[char], pat: &[char]) -> (r: Option<(Vec<char>, Vec<char>)>)
    ensures
        match r {
            Some((a, b)) => split_once(s@, pat@) == Some((a@, b@)),
            None => split_once(s@, pat@) is None,
        },
{
    match find_from_exec(s, pat, 0) {
        Some(i) => {
            proof {
                lemma_find_from(s@, pat@, 0);
            }
            assert(i + pat@.len() <= s@.len());
            assert(i + pat.len() <= s.len());
            Some((slice_copy(s, 0, i), slice_copy(s, i + pat.len(), s.len())))
        },
        None => None,
    }
}

} // verus!
