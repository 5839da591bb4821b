//! What the text around the cursor says: the word under it, whether a
//! function above is a fixture and with which scope, and whether the cursor
//! stands in a `usefixtures(...)` call or a test's signature.
use vstd::prelude::*;

use crate::db::FixtureDatabase;
use crate::imports::str_views;
use crate::adapt::ident_len;
use crate::text::{
    views, lines_of, split_on, char_index, chars_of, find_first, find_spec, ident_char, is_ident_char, seq_contains_seq, seq_starts_with,
    slice_range, starts_with, string_of, trim, trim_chars,
};
use crate::types::{CompletionContext, FixtureScope};

verus! {

// ---------------------------------------------------------------------------
// The word under the cursor

/// The first index of the identifier run of `s` that holds index `c`.
pub open spec fn word_start(s: Seq<char>, c: int) -> int
    decreases c,
{
    if c <= 0 || !ident_char(s[c - 1]) {
        c
    } else {
        word_start(s, c - 1)
    }
}

/// The index just past the identifier run of `s` that holds index `c`.
pub open spec fn word_end(s: Seq<char>, c: int) -> int
    decreases s.len() - c,
{
    if c >= s.len() || !ident_char(s[c]) {
        c
    } else {
        word_end(s, c + 1)
    }
}

/// The identifier (letters, digits, `_`) under character `c` of `line`, if
/// the cursor stands on one.
pub open spec fn word_at(line: Seq<char>, c: int) -> Option<Seq<char>> {
    if 0 <= c < line.len() && ident_char(line[c]) {
        Some(line.subrange(word_start(line, c), word_end(line, c)))
    } else {
        None
    }
}

proof fn lemma_word_start(s: Seq<char>, c: int, k: int)
    requires
        0 <= k <= c <= s.len(),
        forall|j: int| k <= j < c ==> ident_char(#[trigger] s[j]),
        k == 0 || !ident_char(s[k - 1]),
    ensures
        word_start(s, c) == k,
    decreases c,
{
    if c > k {
        lemma_word_start(s, c - 1, k);
    }
}

proof fn lemma_word_end(s: Seq<char>, c: int, k: int)
    requires
        0 <= c <= k <= s.len(),
        forall|j: int| c <= j < k ==> ident_char(#[trigger] s[j]),
        k == s.len() || !ident_char(s[k]),
    ensures
        word_end(s, c) == k,
    decreases s.len() - c,
{
    if c < k {
        lemma_word_end(s, c + 1, k);
    }
}

impl FixtureDatabase {
    /// The word (letters, digits, `_`) under character `character` of `line`.
    pub fn extract_word_at_position(&self, line: &str, character: usize) -> (r: Option<String>)
        ensures
            match r {
                Some(w) => word_at(line@, character as int) == Some(w@),
                None => word_at(line@, character as int) is None,
            },
    {
        let chars = chars_of(line);
        if character >= chars.len() || !is_ident_char(chars[character]) {
            return None;
        }
        let mut start = character;
        while start > 0 && is_ident_char(chars[start - 1])
            invariant
                start <= character < chars@.len(),
                forall|j: int| start <= j <= character ==> ident_char(#[trigger] chars@[j]),
            decreases start,
        {
            start = start - 1;
        }
        let mut end = character;
        while end < chars.len() && is_ident_char(chars[end])
            invariant
                character <= end <= chars@.len(),
                forall|j: int| character <= j < end ==> ident_char(#[trigger] chars@[j]),
            decreases chars@.len() - end,
        {
            end = end + 1;
        }
        proof {
            lemma_word_start(chars@, character as int, start as int);
            lemma_word_end(chars@, character as int, end as int);
        }
        let w = slice_range(&chars, start, end);
        Some(string_of(&w))
    }
}

// ---------------------------------------------------------------------------
// Decorators above a `def`

/// Scanning upward from line `i` through blank and decorator lines: whether a
/// `@pytest.fixture` (or `@fixture`) decorator is among them.
pub open spec fn fixture_decorator_from(lines: Seq<Seq<char>>, i: int) -> bool
    decreases i,
{
    if i < 0 || i >= lines.len() {
        false
    } else {
        let t = trim(lines[i]);
        if t.len() == 0 {
            i > 0 && fixture_decorator_from(lines, i - 1)
        } else if seq_starts_with(t, "@"@) {
            if seq_contains_seq(t, "pytest.fixture"@) || seq_starts_with(t, "@fixture"@) {
                true
            } else {
                i > 0 && fixture_decorator_from(lines, i - 1)
            }
        } else {
            false
        }
    }
}

/// The text between `pat` (first occurrence) and the next `q` after it.
pub open spec fn quoted_after(t: Seq<char>, pat: Seq<char>, q: char) -> Option<Seq<char>> {
    match find_spec(t, pat) {
        Some(pos) => {
            let rest = t.skip(pos + pat.len());
            let e = char_index(rest, q);
            if e >= 0 {
                Some(rest.take(e))
            } else {
                None
            }
        },
        None => None,
    }
}

/// The scope a decorator line sets, `scope="..."` before `scope='...'`:
/// `Some(parsed)` when one of them is there with its closing quote.
pub open spec fn scope_in_line(t: Seq<char>) -> Option<Option<FixtureScope>> {
    match quoted_after(t, "scope=\""@, '"') {
        Some(v) => Some(FixtureScope::spec_parse(v)),
        None => match quoted_after(t, "scope='"@, '\'') {
            Some(v) => Some(FixtureScope::spec_parse(v)),
            None => None,
        },
    }
}

/// Scanning upward from line `i` through blank and decorator lines: the
/// scope of the first decorator line that sets one.
pub open spec fn scope_from(lines: Seq<Seq<char>>, i: int) -> Option<FixtureScope>
    decreases i,
{
    if i < 0 || i >= lines.len() {
        None
    } else {
        let t = trim(lines[i]);
        if t.len() == 0 {
            if i > 0 {
                scope_from(lines, i - 1)
            } else {
                None
            }
        } else if seq_starts_with(t, "@"@) {
            match scope_in_line(t) {
                Some(r) => r,
                None => if i > 0 {
                    scope_from(lines, i - 1)
                } else {
                    None
                },
            }
        } else {
            None
        }
    }
}

fn quoted_after_exec(t: &[char], pat: &[char], q: char) -> (r: Option<Vec<char>>)
    ensures
        match r {
            Some(v) => quoted_after(t@, pat@, q) == Some(v@),
            None => quoted_after(t@, pat@, q) is None,
        },
{
    match find_first(t, pat) {
        Some(pos) => {
            let tl = t.len();
            let rest = slice_range(t, pos + pat.len(), tl);
            assert(rest@ =~= t@.skip(pos + pat@.len()));
            match crate::text::find_char_from(&rest, q, 0) {
                Some(e) => {
                    proof {
                        crate::text::lemma_char_index_of_first(rest@, q, e as int);
                    }
                    let v = slice_range(&rest, 0, e);
                    assert(v@ =~= rest@.take(e as int));
                    Some(v)
                },
                None => {
                    proof {
                        crate::text::lemma_char_index_none(rest@, q);
                    }
                    None
                },
            }
        },
        None => None,
    }
}

fn scope_in_line_exec(t: &[char]) -> (r: Option<Option<FixtureScope>>)
    ensures
        r == scope_in_line(t@),
{
    proof {
        reveal_strlit("scope=\"");
        reveal_strlit("scope='");
    }
    match quoted_after_exec(t, &chars_of("scope=\""), '"') {
        Some(v) => Some(FixtureScope::parse_chars(&v)),
        None => match quoted_after_exec(t, &chars_of("scope='"), '\'') {
            Some(v) => Some(FixtureScope::parse_chars(&v)),
            None => None,
        },
    }
}

/// Whether a `@pytest.fixture` decorator stands above line `def_line_idx`
/// (0-based), among the decorator and blank lines right above it.
fn fixture_decorator_v(lines: &[Vec<char>], def_line_idx: usize) -> (b: bool)
    requires
        def_line_idx <= lines@.len(),
    ensures
        b == fixture_decorator_from(views(lines@), def_line_idx - 1),
{
    proof {
        reveal_strlit("@");
        reveal_strlit("pytest.fixture");
        reveal_strlit("@fixture");
    }
    if def_line_idx == 0 {
        return false;
    }
    let ghost ls = views(lines@);
    let at = chars_of("@");
    let pf = chars_of("pytest.fixture");
    let atf = chars_of("@fixture");
    let mut i: usize = def_line_idx - 1;
    loop
        invariant
            i < lines@.len(),
            ls == views(lines@),
            at@ == "@"@,
            pf@ == "pytest.fixture"@,
            atf@ == "@fixture"@,
            fixture_decorator_from(ls, def_line_idx - 1) == fixture_decorator_from(ls, i as int),
        decreases i,
    {
        let l = lines[i].clone();
        assert(ls[i as int] == l@);
        let t = trim_chars(&l);
        if t.len() == 0 {
            if i == 0 {
                return false;
            }
            i = i - 1;
            continue;
        }
        if starts_with(&t, &at) {
            if crate::text::contains(&t, &pf) || starts_with(&t, &atf) {
                return true;
            }
            if i == 0 {
                return false;
            }
            i = i - 1;
            continue;
        }
        return false;
    }
}

/// The scope set by a `scope="..."` (or `scope='...'`) argument in the
/// decorator lines right above line `def_line_idx` (0-based), if any.
fn scope_v(lines: &[Vec<char>], def_line_idx: usize) -> (r: Option<FixtureScope>)
    requires
        def_line_idx <= lines@.len(),
    ensures
        r == scope_from(views(lines@), def_line_idx - 1),
{
    proof {
        reveal_strlit("@");
    }
    if def_line_idx == 0 {
        return None;
    }
    let ghost ls = views(lines@);
    let at = chars_of("@");
    let mut i: usize = def_line_idx - 1;
    loop
        invariant
            i < lines@.len(),
            ls == views(lines@),
            at@ == "@"@,
            scope_from(ls, def_line_idx - 1) == scope_from(ls, i as int),
        decreases i,
    {
        let l = lines[i].clone();
        assert(ls[i as int] == l@);
        let t = trim_chars(&l);
        if t.len() == 0 {
            if i == 0 {
                return None;
            }
            i = i - 1;
            continue;
        }
        if starts_with(&t, &at) {
            if let Some(r) = scope_in_line_exec(&t) {
                return r;
            }
            if i == 0 {
                return None;
            }
            i = i - 1;
            continue;
        }
        return None;
    }
}

impl FixtureDatabase {
    /// Whether a `@pytest.fixture` decorator stands above line `def_line_idx`
    /// (0-based), among the decorator and blank lines right above it.
    pub fn has_fixture_decorator_above(lines: &[&str], def_line_idx: usize) -> (b: bool)
        requires
            def_line_idx <= lines@.len(),
        ensures
            b == fixture_decorator_from(str_views(lines@), def_line_idx - 1),
    {
        let v = crate::text::chars_of_lines(lines);
        assert(views(v@) =~= str_views(lines@));
        fixture_decorator_v(&v, def_line_idx)
    }

    /// The scope set by a `scope="..."` (or `scope='...'`) argument in the
    /// decorator lines right above line `def_line_idx` (0-based), if any.
    pub fn extract_fixture_scope_from_text(lines: &[&str], def_line_idx: usize) -> (r: Option<FixtureScope>)
        requires
            def_line_idx <= lines@.len(),
        ensures
            r == scope_from(str_views(lines@), def_line_idx - 1),
    {
        let v = crate::text::chars_of_lines(lines);
        assert(views(v@) =~= str_views(lines@));
        scope_v(&v, def_line_idx)
    }
}

// ---------------------------------------------------------------------------
// Inside `usefixtures(...)`

/// The count of `(` minus the count of `)` in `s`.
pub open spec fn balance(s: Seq<char>) -> int
    decreases s.len(),
{
    if s.len() == 0 {
        0
    } else {
        balance(s.drop_last()) + if s.last() == '(' {
            1int
        } else if s.last() == ')' {
            -1int
        } else {
            0int
        }
    }
}

/// The summed balance of lines `a..b`.
pub open spec fn lines_balance(lines: Seq<Seq<char>>, a: int, b: int) -> int
    decreases b - a,
{
    if a >= b {
        0
    } else {
        balance(lines[a]) + lines_balance(lines, a + 1, b)
    }
}

/// The summed length of lines `a..b`.
pub open spec fn lines_len(lines: Seq<Seq<char>>, a: int, b: int) -> int
    decreases b - a,
{
    if a >= b {
        0
    } else {
        lines[a].len() + lines_len(lines, a + 1, b)
    }
}

/// The index of the last `c` in `s`, or `-1`.
pub open spec fn last_index(s: Seq<char>, c: char) -> int
    decreases s.len(),
{
    if s.len() == 0 {
        -1
    } else if s.last() == c {
        s.len() - 1
    } else {
        last_index(s.drop_last(), c)
    }
}

/// What line `i` says when it holds `usefixtures(`: the cursor (on line
/// `cursor`) is inside the call when parentheses are still open there, or,
/// when the call opens and closes on the cursor line, when it is empty
/// (`usefixtures()`); `None` when line `i` does not decide.
pub open spec fn usefixtures_at(lines: Seq<Seq<char>>, cursor: int, i: int) -> Option<bool> {
    match find_spec(lines[i], "usefixtures("@) {
        None => None,
        Some(pos) => {
            let s = lines[i].skip(pos);
            let depth = balance(s) + lines_balance(lines, i + 1, cursor + 1);
            if depth > 0 {
                Some(true)
            } else if i == cursor && depth == 0 {
                let close = last_index(s, ')');
                if close >= 0 {
                    Some(close == char_index(s, '(') + 1)
                } else {
                    Some(true)
                }
            } else {
                None
            }
        },
    }
}

/// Scanning upward from line `i` (down to line `limit`) for a decisive
/// `usefixtures(` line.
pub open spec fn usefixtures_from(lines: Seq<Seq<char>>, cursor: int, i: int, limit: int) -> bool
    decreases i,
{
    if i < 0 {
        false
    } else {
        match usefixtures_at(lines, cursor, i) {
            Some(b) => b,
            None => if i == 0 || i <= limit {
                false
            } else {
                usefixtures_from(lines, cursor, i - 1, limit)
            },
        }
    }
}

/// The first line the backward scans look at: ten (or `n`) lines above the cursor.
pub open spec fn scan_floor(cursor: int, n: int) -> int {
    if cursor >= n {
        cursor - n
    } else {
        0
    }
}

fn balance_exec(v: &[char]) -> (b: i64)
    requires
        v@.len() <= i32::MAX,
    ensures
        b == balance(v@),
{
    let mut b: i64 = 0;
    let mut i: usize = 0;
    while i < v.len()
        invariant
            i <= v@.len() <= i32::MAX,
            b == balance(v@.take(i as int)),
            -(i as int) <= b <= i,
        decreases v@.len() - i,
    {
        assert(v@.take(i + 1).drop_last() =~= v@.take(i as int));
        if v[i] == '(' {
            b = b + 1;
        } else if v[i] == ')' {
            b = b - 1;
        }
        i = i + 1;
    }
    assert(v@.take(v@.len() as int) =~= v@);
    b
}

proof fn lemma_balance_bound(s: Seq<char>)
    ensures
        -s.len() <= balance(s) <= s.len(),
    decreases s.len(),
{
    if s.len() > 0 {
        lemma_balance_bound(s.drop_last());
    }
}

proof fn lemma_lines_bounds(lines: Seq<Seq<char>>, a: int, b: int)
    requires
        0 <= a <= b <= lines.len(),
    ensures
        lines_len(lines, a, b) >= 0,
        -lines_len(lines, a, b) <= lines_balance(lines, a, b) <= lines_len(lines, a, b),
    decreases b - a,
{
    if a < b {
        lemma_lines_bounds(lines, a + 1, b);
        lemma_balance_bound(lines[a]);
    }
}

proof fn lemma_lines_len_split(lines: Seq<Seq<char>>, a: int, m: int, b: int)
    requires
        0 <= a <= m <= b <= lines.len(),
    ensures
        lines_len(lines, a, b) == lines_len(lines, a, m) + lines_len(lines, m, b),
        lines_len(lines, a, m) >= 0,
        lines_len(lines, m, b) >= 0,
    decreases m - a,
{
    lemma_lines_bounds(lines, a, m);
    lemma_lines_bounds(lines, m, b);
    if a < m {
        lemma_lines_len_split(lines, a + 1, m, b);
    }
}

fn lines_balance_exec(lines: &[Vec<char>], a: usize, b: usize) -> (r: i64)
    requires
        a <= b <= lines@.len(),
        lines_len(views(lines@), a as int, b as int) <= i32::MAX,
    ensures
        r == lines_balance(views(lines@), a as int, b as int),
{
    let ghost ls = views(lines@);
    let mut r: i64 = 0;
    let mut k: usize = b;
    proof {
        lemma_lines_bounds(ls, a as int, b as int);
    }
    while k > a
        invariant
            a <= k <= b <= lines@.len(),
            ls == views(lines@),
            lines_len(ls, a as int, b as int) <= i32::MAX,
            r == lines_balance(ls, k as int, b as int),
            -lines_len(ls, k as int, b as int) <= r <= lines_len(ls, k as int, b as int),
        decreases k,
    {
        let l = lines[k - 1].clone();
        assert(ls[k - 1] == l@);
        proof {
            lemma_lines_len_split(ls, a as int, k - 1, b as int);
            lemma_lines_len_split(ls, k - 1, k as int, b as int);
            assert(lines_len(ls, k - 1, k as int) == l@.len() + lines_len(ls, k as int, k as int));
            lemma_balance_bound(l@);
        }
        let lb = balance_exec(&l);
        r = r + lb;
        k = k - 1;
    }
    r
}

fn last_index_exec(v: &[char], c: char) -> (r: Option<usize>)
    ensures
        match r {
            Some(k) => last_index(v@, c) == k as int && k < v@.len(),
            None => last_index(v@, c) == -1,
        },
{
    let mut k: usize = v.len();
    assert(v@.take(k as int) =~= v@);
    while k > 0
        invariant
            k <= v@.len(),
            last_index(v@, c) == last_index(v@.take(k as int), c),
        decreases k,
    {
        let ghost t = v@.take(k as int);
        assert(t.drop_last() =~= v@.take(k - 1));
        if v[k - 1] == c {
            return Some(k - 1);
        }
        k = k - 1;
    }
    None
}

fn first_index_exec(v: &[char], c: char) -> (r: i64)
    requires
        v@.len() <= i32::MAX,
    ensures
        r == char_index(v@, c),
        -1 <= r < v@.len(),
{
    proof {
        crate::text::lemma_char_index(v@, c);
    }
    match crate::text::find_char_from(v, c, 0) {
        Some(k) => {
            proof {
                crate::text::lemma_char_index_of_first(v@, c, k as int);
            }
            k as i64
        },
        None => {
            proof {
                crate::text::lemma_char_index_none(v@, c);
            }
            -1
        },
    }
}

/// `usefixtures_at` for one line.
fn usefixtures_at_exec(lines: &[Vec<char>], cursor: usize, i: usize) -> (r: Option<bool>)
    requires
        i <= cursor < lines@.len(),
        lines_len(views(lines@), i as int, cursor + 1) <= i32::MAX,
    ensures
        r == usefixtures_at(views(lines@), cursor as int, i as int),
{
    proof {
        reveal_strlit("usefixtures(");
    }
    let ghost ls = views(lines@);
    let l = lines[i].clone();
    assert(ls[i as int] == l@);
    let pos = match find_first(&l, &chars_of("usefixtures(")) {
        Some(p) => p,
        None => {
            return None;
        },
    };
    let sfx = slice_range(&l, pos, l.len());
    assert(sfx@ =~= l@.skip(pos as int));
    proof {
        lemma_lines_len_split(ls, i as int, i + 1, cursor + 1);
        assert(lines_len(ls, i as int, i + 1) == l@.len() + lines_len(ls, i + 1, i + 1));
        lemma_balance_bound(sfx@);
        lemma_lines_bounds(ls, i + 1, cursor + 1);
    }
    let b1 = balance_exec(&sfx);
    let b2 = lines_balance_exec(lines, i + 1, cursor + 1);
    let depth = b1 + b2;
    if depth > 0 {
        return Some(true);
    }
    if i == cursor && depth == 0 {
        match last_index_exec(&sfx, ')') {
            Some(close) => {
                let open = first_index_exec(&sfx, '(');
                return Some(close as i64 == open + 1);
            },
            None => {
                return Some(true);
            },
        }
    }
    None
}

fn usefixtures_v(lines: &[Vec<char>], cursor_idx: usize) -> (r: Option<
    CompletionContext,
>)
    requires
        cursor_idx < lines@.len(),
        lines_len(views(lines@), scan_floor(cursor_idx as int, 10), cursor_idx + 1) <= i32::MAX,
    ensures
        r is Some <==> usefixtures_from(
            views(lines@),
            cursor_idx as int,
            cursor_idx as int,
            scan_floor(cursor_idx as int, 10),
        ),
        r matches Some(c) ==> c is UsefixturesDecorator,
{
    let ghost ls = views(lines@);
    let limit = if cursor_idx >= 10 {
        cursor_idx - 10
    } else {
        0
    };
    let mut i: usize = cursor_idx;
    loop
        invariant
            limit <= i <= cursor_idx < lines@.len(),
            limit as int == scan_floor(cursor_idx as int, 10),
            ls == views(lines@),
            lines_len(ls, limit as int, cursor_idx + 1) <= i32::MAX,
            usefixtures_from(ls, cursor_idx as int, cursor_idx as int, limit as int) == usefixtures_from(
                ls,
                cursor_idx as int,
                i as int,
                limit as int,
            ),
        decreases i,
    {
        proof {
            lemma_lines_len_split(ls, limit as int, i as int, cursor_idx + 1);
        }
        match usefixtures_at_exec(lines, cursor_idx, i) {
            Some(b) => {
                if b {
                    return Some(CompletionContext::UsefixturesDecorator);
                } else {
                    return None;
                }
            },
            None => {},
        }
        if i == 0 || i <= limit {
            return None;
        }
        i = i - 1;
    }
}

// ---------------------------------------------------------------------------
// The signature under the cursor, read from text

/// The lines of `content`, with an empty last line when it ends in `\n`.
pub open spec fn text_lines(content: Seq<char>) -> Seq<Seq<char>> {
    if content.len() > 0 && content.last() == '\n' {
        lines_of(content).push(Seq::empty())
    } else {
        lines_of(content)
    }
}

/// Scanning upward from line `i` (down to line `limit`): the first line that
/// starts a `def` or `async def`.
pub open spec fn def_from(lines: Seq<Seq<char>>, i: int, limit: int) -> Option<int>
    decreases i,
{
    if i < 0 || i >= lines.len() {
        None
    } else {
        let t = trim(lines[i]);
        if seq_starts_with(t, "def "@) || seq_starts_with(t, "async def "@) {
            Some(i)
        } else if i == 0 || i <= limit {
            None
        } else {
            def_from(lines, i - 1, limit)
        }
    }
}

/// The name of the function defined on line `def_line` (trimmed).
pub open spec fn def_name(def_line: Seq<char>) -> Seq<char> {
    let rest = if seq_starts_with(def_line, "async def "@) {
        def_line.skip(10)
    } else if def_line.len() >= 4 {
        def_line.skip(4)
    } else {
        Seq::empty()
    };
    rest.take(ident_len(rest) as int)
}

/// The parenthesis state of a signature: depth, whether the signature's `(`
    /// was seen, whether its `)` closed on a line before the cursor line.
pub open spec fn paren_step(st: (int, bool, bool), c: char, is_cursor: bool) -> (int, bool, bool) {
    if c == '(' {
            (st.0 + 1, st.1 || st.0 + 1 == 1, st.2)
        } else if c == ')' {
        (st.0 - 1, st.1, st.2 || (st.0 - 1 == 0 && st.1 && !is_cursor))
    } else {
        st
    }
}

pub open spec fn paren_line(st: (int, bool, bool), s: Seq<char>, is_cursor: bool) -> (int, bool, bool)
    decreases s.len(),
{
    if s.len() == 0 {
        st
    } else {
        paren_step(paren_line(st, s.drop_last(), is_cursor), s.last(), is_cursor)
    }
}

/// The parenthesis state after lines `d..k` (the cursor on line `cursor`).
pub open spec fn paren_lines(lines: Seq<Seq<char>>, d: int, k: int, cursor: int) -> (int, bool, bool)
    decreases k - d,
{
    if k <= d {
        (0, false, false)
    } else {
        paren_line(paren_lines(lines, d, k - 1, cursor), lines[k - 1], k - 1 == cursor)
    }
}

/// The text between the signature's `(` and `)`: state (past the `(`, past
        /// the `)`, text so far).
pub open spec fn param_char(st: (bool, bool, Seq<char>), c: char) -> (bool, bool, Seq<char>) {
    if st.1 {
        st
    } else if st.0 {
        if c == ')' {
        (true, true, st.2)
    } else {
        (true, false, st.2.push(c))
    }
} else if c == '(' {
        (true, false, st.2)
    } else {
        st
    }
}

pub open spec fn param_line(st: (bool, bool, Seq<char>), s: Seq<char>) -> (bool, bool, Seq<char>)
    decreases s.len(),
{
    if s.len() == 0 {
        st
    } else {
        param_char(param_line(st, s.drop_last()), s.last())
    }
}

/// After lines `d..k`: each line ends with a space while the parameters are open.
pub open spec fn param_lines(lines: Seq<Seq<char>>, d: int, k: int) -> (bool, bool, Seq<char>)
    decreases k - d,
{
    if k <= d {
        (false, false, Seq::empty())
    } else {
        let st = param_line(param_lines(lines, d, k - 1), lines[k - 1]);
        if st.0 && !st.1 {
            (st.0, st.1, st.2.push(' '))
        } else {
            st
        }
    }
}

/// The parameter names of a parameter text: each comma-separated piece,
/// trimmed, cut at its first non-identifier character; empty ones dropped.
pub open spec fn param_names(pieces: Seq<Seq<char>>) -> Seq<Seq<char>>
    decreases pieces.len(),
{
    if pieces.len() == 0 {
        Seq::empty()
    } else {
        let r = param_names(pieces.drop_last());
        let t = trim(pieces.last());
        let n = t.take(ident_len(t) as int);
        if n.len() > 0 {
            r.push(n)
        } else {
            r
        }
    }
}

/// What the text says of the cursor.
pub enum TextContext {
    Usefixtures,
    Signature {
        name: Seq<char>,
        line: int,
        is_fixture: bool,
        params: Seq<Seq<char>>,
        scope: Option<FixtureScope>,
    },
}

/// The completion context read from the text of a file (for files that do
/// not parse) with the cursor on 1-based line `target`: inside a
/// `usefixtures(` call, or in the signature of a test (`test_*`) or fixture
/// defined at most 50 lines above, unless that signature closed on an
/// earlier line.
pub open spec fn text_completion(content: Seq<char>, target: int) -> Option<TextContext> {
    let ls = text_lines(content);
    if target == 0 || target > ls.len() {
        None
    } else {
        let cursor = target - 1;
        if usefixtures_from(ls, cursor, cursor, scan_floor(cursor, 10)) {
            Some(TextContext::Usefixtures)
        } else {
            match def_from(ls, cursor, scan_floor(cursor, 50)) {
                None => None,
                Some(d) => {
                    let name = def_name(trim(ls[d]));
                    let is_test = seq_starts_with(name, "test_"@);
                    let is_fixture = fixture_decorator_from(ls, d - 1);
                    if name.len() == 0 || (!is_test && !is_fixture) {
                        None
                    } else {
                        let ps = paren_lines(ls, d, cursor + 1, cursor);
                        let inside = ps.1 && ps.0 > 0;
                        if ps.2 && !inside {
                            None
                        } else {
                            Some(
                                TextContext::Signature {
                                    name: name,
                                    line: d + 1,
                                    is_fixture: is_fixture,
                                    params: if ps.1 {
                                        param_names(split_on(param_lines(ls, d, cursor + 1).2, ','))
                                    } else {
                                        Seq::empty()
                                    },
                                    scope: if is_fixture {
                                        Some(
                                            match scope_from(ls, d - 1) {
                                                Some(sc) => sc,
                                                None => FixtureScope::Function,
                                            },
                                        )
                                    } else {
                                        None
                                    },
                                },
                            )
                        }
                    }
                },
            }
        }
    }
}

impl FixtureDatabase {
    /// Whether the cursor (on 0-based line `cursor_idx`) stands inside an
    /// unclosed `pytest.mark.usefixtures(` call opened at most ten lines above
    /// (as a decorator or in a `pytestmark` list); then the context is
    /// [`CompletionContext::UsefixturesDecorator`].
    pub fn get_usefixtures_context_from_text(lines: &[&str], cursor_idx: usize) -> (r: Option<
        CompletionContext,
    >)
        requires
            cursor_idx < lines@.len(),
            lines_len(str_views(lines@), scan_floor(cursor_idx as int, 10), cursor_idx + 1) <= i32::MAX,
        ensures
            r is Some <==> usefixtures_from(
                str_views(lines@),
                cursor_idx as int,
                cursor_idx as int,
                scan_floor(cursor_idx as int, 10),
            ),
            r matches Some(c) ==> c is UsefixturesDecorator,
    {
        let v = crate::text::chars_of_lines(lines);
        assert(views(v@) =~= str_views(lines@));
        usefixtures_v(&v, cursor_idx)
    }
}

fn text_lines_exec(content: &str) -> (r: Vec<Vec<char>>)
    ensures
        views(r@) == text_lines(content@),
{
    let v = chars_of(content);
    let mut ls = crate::text::lines(&v);
    if v.len() > 0 && v[v.len() - 1] == '\n' {
        let ghost before = views(ls@);
        ls.push(Vec::new());
        assert(views(ls@) =~= before.push(Seq::empty()));
    }
    ls
}

fn def_from_exec(lines: &[Vec<char>], cursor: usize, limit: usize) -> (r: Option<usize>)
    requires
        limit <= cursor < lines@.len(),
    ensures
        match r {
            Some(d) => def_from(views(lines@), cursor as int, limit as int) == Some(d as int) && limit <= d
                <= cursor,
            None => def_from(views(lines@), cursor as int, limit as int) is None,
        },
{
    proof {
        reveal_strlit("def ");
        reveal_strlit("async def ");
    }
    let def_kw = chars_of("def ");
    let adef_kw = chars_of("async def ");
    let mut i: usize = cursor;
    loop
        invariant
            limit <= i <= cursor < lines@.len(),
            def_kw@ == "def "@,
            adef_kw@ == "async def "@,
            def_from(views(lines@), cursor as int, limit as int) == def_from(views(lines@), i as int, limit as int),
        decreases i,
    {
        assert(views(lines@)[i as int] == lines@[i as int]@);
        let t = trim_chars(&lines[i]);
        if starts_with(&t, &def_kw) || starts_with(&t, &adef_kw) {
            return Some(i);
        }
        if i == 0 || i <= limit {
            return None;
        }
        i = i - 1;
    }
}

fn ident_prefix(v: &[char]) -> (r: Vec<char>)
    ensures
        r@ == v@.take(ident_len(v@) as int),
{
    let mut k: usize = 0;
    while k < v.len() && is_ident_char(v[k])
        invariant
            k <= v@.len(),
            forall|j: int| 0 <= j < k ==> ident_char(#[trigger] v@[j]),
        decreases v@.len() - k,
    {
        k = k + 1;
    }
    proof {
        crate::adapt::lemma_ident_len(v@);
        let n = ident_len(v@);
        if n < k {
            assert(ident_char(v@[n as int]));
        } else if n > k {
            assert(ident_char(v@[k as int]));
        }
    }
    slice_range(v, 0, k)
}

fn def_name_exec(t: &[char]) -> (r: Vec<char>)
    ensures
        r@ == def_name(t@),
{
    proof {
        reveal_strlit("async def ");
        reveal_strlit("def ");
    }
    let adef_kw = chars_of("async def ");
    let rest = if starts_with(t, &adef_kw) {
        let r = slice_range(t, 10, t.len());
        assert(r@ =~= t@.skip(10));
        r
    } else {
        if t.len() < 4 {
            let r: Vec<char> = Vec::new();
            assert(r@ =~= Seq::<char>::empty());
            r
        } else {
            let r = slice_range(t, 4, t.len());
            assert(r@ =~= t@.skip(4));
            r
        }
    };
    ident_prefix(&rest)
}

fn paren_scan(lines: &[Vec<char>], d: usize, cursor: usize) -> (r: (i64, bool, bool))
    requires
        d <= cursor < lines@.len(),
        lines_len(views(lines@), d as int, cursor + 1) <= i32::MAX,
    ensures
        (r.0 as int, r.1, r.2) == paren_lines(views(lines@), d as int, cursor + 1, cursor as int),
{
    let ghost ls = views(lines@);
    let mut depth: i64 = 0;
    let mut found_open = false;
    let mut closed = false;
    let mut k: usize = d;
    proof {
        lemma_lines_bounds(ls, d as int, cursor + 1);
    }
    while k <= cursor
        invariant
            d <= k <= cursor + 1,
            cursor < lines@.len(),
            ls == views(lines@),
            lines_len(ls, d as int, cursor + 1) <= i32::MAX,
            (depth as int, found_open, closed) == paren_lines(ls, d as int, k as int, cursor as int),
            -lines_len(ls, d as int, k as int) <= depth <= lines_len(ls, d as int, k as int),
        decreases cursor + 1 - k,
    {
        let l = &lines[k];
        assert(ls[k as int] == l@);
        let is_cursor = k == cursor;
        let ghost st0 = (depth as int, found_open, closed);
        let ghost base = lines_len(ls, d as int, k as int);
        proof {
            lemma_lines_len_split(ls, d as int, k as int, cursor + 1);
            lemma_lines_len_split(ls, k as int, k + 1, cursor + 1);
            assert(lines_len(ls, k as int, k + 1) == l@.len() + lines_len(ls, k + 1, k + 1));
            lemma_lines_len_split(ls, d as int, k as int, k + 1);
        }
        let mut j: usize = 0;
        while j < l.len()
            invariant
                j <= l@.len(),
                l@ == ls[k as int],
                base + l@.len() <= i32::MAX,
                base >= 0,
                (depth as int, found_open, closed) == paren_line(st0, l@.take(j as int), is_cursor),
                -(base + j) <= depth <= base + j,
            decreases l@.len() - j,
        {
            assert(l@.take(j + 1).drop_last() =~= l@.take(j as int));
            let c = l[j];
            if c == '(' {
                depth = depth + 1;
                if depth == 1 {
                    found_open = true;
                }
            } else if c == ')' {
                depth = depth - 1;
                if depth == 0 && found_open && !is_cursor {
                    closed = true;
                }
            }
            j = j + 1;
        }
        assert(l@.take(l@.len() as int) =~= l@);
        k = k + 1;
    }
    (depth, found_open, closed)
}

fn param_scan(lines: &[Vec<char>], d: usize, cursor: usize) -> (r: Vec<char>)
    requires
        d <= cursor < lines@.len(),
    ensures
        r@ == param_lines(views(lines@), d as int, cursor + 1).2,
{
    let ghost ls = views(lines@);
    let mut past_open = false;
    let mut past_close = false;
    let mut text: Vec<char> = Vec::new();
    let mut k: usize = d;
    while k <= cursor
        invariant
            d <= k <= cursor + 1,
            cursor < lines@.len(),
            ls == views(lines@),
            (past_open, past_close, text@) == param_lines(ls, d as int, k as int),
        decreases cursor + 1 - k,
    {
        let l = &lines[k];
        assert(ls[k as int] == l@);
        let ghost st0 = (past_open, past_close, text@);
        let mut j: usize = 0;
        while j < l.len()
            invariant
                j <= l@.len(),
                l@ == ls[k as int],
                (past_open, past_close, text@) == param_line(st0, l@.take(j as int)),
            decreases l@.len() - j,
        {
            assert(l@.take(j + 1).drop_last() =~= l@.take(j as int));
            let c = l[j];
            if past_close {
            } else if past_open {
                if c == ')' {
                    past_close = true;
                } else {
                    text.push(c);
                }
            } else if c == '(' {
                past_open = true;
            }
            j = j + 1;
        }
        assert(l@.take(l@.len() as int) =~= l@);
        if past_open && !past_close {
            text.push(' ');
        }
        k = k + 1;
    }
    text
}

fn param_names_exec(pieces: &Vec<Vec<char>>) -> (r: Vec<String>)
    ensures
        crate::types::string_views(r@) == param_names(views(pieces@)),
{
    let ghost pv = views(pieces@);
    let mut r: Vec<String> = Vec::new();
    let mut i: usize = 0;
    while i < pieces.len()
        invariant
            i <= pieces@.len(),
            pv == views(pieces@),
            crate::types::string_views(r@) == param_names(pv.take(i as int)),
        decreases pieces@.len() - i,
    {
        assert(pv.take(i + 1).drop_last() =~= pv.take(i as int));
        assert(pv.take(i + 1).last() == pieces@[i as int]@);
        let t = trim_chars(&pieces[i]);
        let n = ident_prefix(&t);
        if n.len() > 0 {
            let ghost before = crate::types::string_views(r@);
            r.push(string_of(&n));
            assert(crate::types::string_views(r@) =~= before.push(n@));
        }
        i = i + 1;
    }
    assert(pv.take(pv.len() as int) =~= pv);
    r
}

/// Whether `r` is the completion context that `t` describes.
pub open spec fn context_matches(r: Option<CompletionContext>, t: Option<TextContext>) -> bool {
    match t {
        None => r is None,
        Some(TextContext::Usefixtures) => r matches Some(c) && c is UsefixturesDecorator,
        Some(TextContext::Signature { name, line, is_fixture, params, scope }) => match r {
            Some(
                CompletionContext::FunctionSignature {
                    function_name,
                    function_line,
                    is_fixture: f,
                    declared_params,
                    fixture_scope,
                },
            ) => function_name@ == name && function_line == line && f == is_fixture
                && crate::types::string_views(declared_params@) == params && fixture_scope == scope,
            _ => false,
        },
    }
}

impl FixtureDatabase {
    /// The completion context from the text of a file that does not parse,
    /// with the cursor on 1-based line `target_line`.
    pub fn get_completion_context_from_text(&self, content: &str, target_line: usize) -> (r: Option<
        CompletionContext,
    >)
        requires
            target_line == 0 || target_line > text_lines(content@).len() || lines_len(
                text_lines(content@),
                scan_floor(target_line - 1, 50),
                target_line as int,
            ) <= i32::MAX,
        ensures
            context_matches(r, text_completion(content@, target_line as int)),
    {
        proof {
            reveal_strlit("test_");
        }
        let ls = text_lines_exec(content);
        let ghost lv = views(ls@);
        if target_line == 0 || target_line > ls.len() {
            return None;
        }
        let cursor = target_line - 1;
        let floor10 = if cursor >= 10 {
            cursor - 10
        } else {
            0
        };
        let floor50 = if cursor >= 50 {
            cursor - 50
        } else {
            0
        };
        proof {
            lemma_lines_len_split(lv, floor50 as int, floor10 as int, cursor + 1);
        }
        if let Some(ctx) = usefixtures_v(&ls, cursor) {
            return Some(ctx);
        }
        let d = match def_from_exec(&ls, cursor, floor50) {
            Some(d) => d,
            None => {
                return None;
            },
        };
        assert(lv[d as int] == ls@[d as int]@);
        let t = trim_chars(&ls[d]);
        let name = def_name_exec(&t);
        if name.len() == 0 {
            return None;
        }
        let is_test = starts_with(&name, &chars_of("test_"));
        let is_fixture = fixture_decorator_v(&ls, d);
        if !is_test && !is_fixture {
            return None;
        }
        proof {
            lemma_lines_len_split(lv, floor50 as int, d as int, cursor + 1);
        }
        let (depth, found_open, closed) = paren_scan(&ls, d, cursor);
        let inside = found_open && depth > 0;
        if closed && !inside {
            return None;
        }
        let params: Vec<String> = if found_open {
            let text = param_scan(&ls, d, cursor);
            let pieces = crate::text::split_chars(&text, ',');
            param_names_exec(&pieces)
        } else {
            let v: Vec<String> = Vec::new();
            assert(crate::types::string_views(v@) =~= Seq::<Seq<char>>::empty());
            v
        };
        let scope = if is_fixture {
            match scope_v(&ls, d) {
                Some(sc) => Some(sc),
                None => Some(FixtureScope::Function),
            }
        } else {
            None
        };
        Some(
            CompletionContext::FunctionSignature {
                function_name: string_of(&name),
                function_line: d + 1,
                is_fixture: is_fixture,
                declared_params: params,
                fixture_scope: scope,
            },
        )
    }
}

} // verus!
