//! Character-level helpers over the `Seq<char>` view of strings.
//!
//! Every string the library reads is first turned into its characters; the
//! specifications below speak of those character sequences.
use vstd::prelude::*;

verus! {

/// The characters of `s`, in order.
pub fn chars_of(s: &str) -> (v: Vec<char>)
    ensures
        v@ == s@,
{
    let mut v: Vec<char> = Vec::new();
    for c in it: s.chars()
        invariant
            v@ == it.seq().take(it.index() as int),
            it.seq() == s@,
    {
        v.push(c);
    }
    v
}

/// `String::push`: appends one character.
#[verifier::external_body]
pub(crate) fn push_char(s: &mut String, c: char)
    ensures
        final(s)@ == old(s)@.push(c),
{
    s.push(c);
}

/// The string made of the characters of `v`.
pub fn string_from_chars(v: &[char]) -> (s: String)
    ensures
        s@ == v@,
{
    let mut s = String::new();
    let mut i: usize = 0;
    while i < v.len()
        invariant
            i <= v@.len(),
            s@ == v@.take(i as int),
        decreases v@.len() - i,
    {
        push_char(&mut s, v[i]);
        i = i + 1;
        assert(v@.take(i as int) == v@.take((i - 1) as int).push(v@[i - 1]));
    }
    assert(v@.take(v@.len() as int) == v@);
    s
}

/// The string made of the characters `v[from..to]`.
pub fn string_from_range(v: &[char], from: usize, to: usize) -> (s: String)
    requires
        from <= to <= v@.len(),
    ensures
        s@ == v@.subrange(from as int, to as int),
{
    let mut s = String::new();
    let mut i: usize = from;
    while i < to
        invariant
            from <= i <= to <= v@.len(),
            s@ == v@.subrange(from as int, i as int),
        decreases to - i,
    {
        push_char(&mut s, v[i]);
        i = i + 1;
        assert(v@.subrange(from as int, i as int) == v@.subrange(from as int, (i - 1) as int).push(
            v@[i - 1],
        ));
    }
    s
}

/// Whether `c` has the Unicode `White_Space` property (the property
/// `char::is_whitespace` tests): tab to carriage return, space, next line,
/// no-break space, ogham space mark, en quad to hair space, line and
/// paragraph separators, narrow no-break space, medium mathematical space and
/// ideographic space.
pub open spec fn unicode_whitespace(c: char) -> bool {
    let u = c as u32;
    ||| 0x09 <= u <= 0x0D
    ||| u == 0x20
    ||| u == 0x85
    ||| u == 0xA0
    ||| u == 0x1680
    ||| 0x2000 <= u <= 0x200A
    ||| u == 0x2028
    ||| u == 0x2029
    ||| u == 0x202F
    ||| u == 0x205F
    ||| u == 0x3000
}

/// Whether `c` is alphabetic or numeric in the Unicode sense, as `char::is_alphanumeric` decides.
pub uninterp spec fn unicode_alphanumeric(c: char) -> bool;

/// ASCII whitespace in the sense of `White_Space`: tab, line feed, vertical tab,
/// form feed, carriage return and space.
pub open spec fn ascii_white_space(c: char) -> bool {
    c == ' ' || c == '\t' || c == '\n' || c == '\r' || c == '\x0B' || c == '\x0C'
}

pub open spec fn is_ascii_char(c: char) -> bool {
    (c as u32) < 128
}

pub open spec fn ascii_digit(c: char) -> bool {
    '0' <= c && c <= '9'
}

pub open spec fn ascii_upper(c: char) -> bool {
    'A' <= c && c <= 'Z'
}

pub open spec fn ascii_lower(c: char) -> bool {
    'a' <= c && c <= 'z'
}

pub open spec fn ascii_alpha(c: char) -> bool {
    ascii_upper(c) || ascii_lower(c)
}

pub open spec fn ascii_alnum(c: char) -> bool {
    ascii_alpha(c) || ascii_digit(c)
}

/// Whether `c` is whitespace (`White_Space`). On ASCII characters that is
/// exactly tab, line feed, vertical tab, form feed, carriage return and space.
pub fn is_whitespace(c: char) -> (b: bool)
    ensures
        b == unicode_whitespace(c),
        is_ascii_char(c) ==> (b <==> ascii_white_space(c)),
{
    let u = c as u32;
    (0x09 <= u && u <= 0x0D) || u == 0x20 || u == 0x85 || u == 0xA0 || u == 0x1680 || (0x2000 <= u && u <= 0x200A)
        || u == 0x2028 || u == 0x2029 || u == 0x202F || u == 0x205F || u == 0x3000
}

/// `char::is_alphanumeric`. On ASCII characters it holds exactly of the
/// letters `A-Z`, `a-z` and the digits `0-9`.
#[verifier::external_body]
pub fn is_alphanumeric(c: char) -> (b: bool)
    ensures
        b == unicode_alphanumeric(c),
        is_ascii_char(c) ==> (b <==> ascii_alnum(c)),
{
    c.is_alphanumeric()
}

pub fn is_ascii_digit(c: char) -> (b: bool)
    ensures
        b == ascii_digit(c),
{
    '0' <= c && c <= '9'
}

pub fn is_ascii_uppercase(c: char) -> (b: bool)
    ensures
        b == ascii_upper(c),
{
    'A' <= c && c <= 'Z'
}

/// A character that may stand in a Python identifier as the original reads it:
/// alphanumeric (Unicode) or `_`.
pub open spec fn ident_char(c: char) -> bool {
    unicode_alphanumeric(c) || c == '_'
}

pub fn is_ident_char(c: char) -> (b: bool)
    ensures
        b == ident_char(c),
{
    c == '_' || is_alphanumeric(c)
}

/// An ASCII identifier character: `[A-Za-z0-9_]`.
pub open spec fn ascii_ident_char(c: char) -> bool {
    ascii_alnum(c) || c == '_'
}

pub fn is_ascii_ident_char(c: char) -> (b: bool)
    ensures
        b == ascii_ident_char(c),
{
    c == '_' || ('0' <= c && c <= '9') || ('A' <= c && c <= 'Z') || ('a' <= c && c <= 'z')
}

// ---------------------------------------------------------------------------
// Prefixes, suffixes, equality

pub open spec fn seq_starts_with(s: Seq<char>, p: Seq<char>) -> bool {
    p.len() <= s.len() && s.take(p.len() as int) == p
}

pub open spec fn seq_ends_with(s: Seq<char>, p: Seq<char>) -> bool {
    p.len() <= s.len() && s.skip(s.len() - p.len()) == p
}

/// Whether `p` occurs in `s` starting at index `i`.
pub open spec fn occurs_at(s: Seq<char>, p: Seq<char>, i: int) -> bool {
    0 <= i && i + p.len() <= s.len() && s.subrange(i, i + p.len()) == p
}

pub open spec fn seq_contains_seq(s: Seq<char>, p: Seq<char>) -> bool {
    exists|i: int| occurs_at(s, p, i)
}

/// Whether `p` occurs in `v` at index `at`.
pub fn matches_at(v: &[char], p: &[char], at: usize) -> (b: bool)
    ensures
        b == occurs_at(v@, p@, at as int),
{
    if at > v.len() || p.len() > v.len() - at {
        return false;
    }
    let mut j: usize = 0;
    while j < p.len()
        invariant
            j <= p@.len(),
            at + p@.len() <= v@.len(),
            v@.len() <= usize::MAX,
            forall|k: int| 0 <= k < j ==> v@[at + k] == p@[k],
        decreases p@.len() - j,
    {
        if v[at + j] != p[j] {
            assert(v@.subrange(at as int, at + p@.len())[j as int] != p@[j as int]);
            return false;
        }
        j = j + 1;
    }
    assert(v@.subrange(at as int, at + p@.len()) =~= p@);
    true
}

pub fn starts_with(v: &[char], p: &[char]) -> (b: bool)
    ensures
        b == seq_starts_with(v@, p@),
{
    let b = matches_at(v, p, 0);
    proof {
        if p@.len() <= v@.len() {
            assert(v@.subrange(0, p@.len() as int) == v@.take(p@.len() as int));
        }
    }
    b
}

pub fn ends_with(v: &[char], p: &[char]) -> (b: bool)
    ensures
        b == seq_ends_with(v@, p@),
{
    if p.len() > v.len() {
        return false;
    }
    let b = matches_at(v, p, v.len() - p.len());
    proof {
        assert(v@.subrange(v@.len() - p@.len(), v@.len() as int) == v@.skip(v@.len() - p@.len()));
    }
    b
}

pub fn chars_eq(a: &[char], b: &[char]) -> (r: bool)
    ensures
        r == (a@ == b@),
{
    if a.len() != b.len() {
        return false;
    }
    let r = starts_with(a, b);
    assert(a@.take(b@.len() as int) == a@);
    r
}

/// Index of the first occurrence of `p` in `v` at or after `from`.
pub open spec fn is_first_occurrence_from(s: Seq<char>, p: Seq<char>, from: int, i: int) -> bool {
    from <= i && occurs_at(s, p, i) && forall|k: int| from <= k < i ==> !occurs_at(s, p, k)
}

pub fn find_from(v: &[char], p: &[char], from: usize) -> (r: Option<usize>)
    ensures
        match r {
            Some(i) => is_first_occurrence_from(v@, p@, from as int, i as int),
            None => forall|k: int| from <= k ==> !occurs_at(v@, p@, k),
        },
{
    let mut i = from;
    loop
        invariant
            from <= i,
            forall|k: int| from <= k < i ==> !occurs_at(v@, p@, k),
        decreases v@.len() + 1 - i,
    {
        if matches_at(v, p, i) {
            return Some(i);
        }
        if i >= v.len() {
            return None;
        }
        i = i + 1;
    }
}

pub fn find(v: &[char], p: &[char]) -> (r: Option<usize>)
    ensures
        match r {
            Some(i) => is_first_occurrence_from(v@, p@, 0, i as int),
            None => forall|k: int| !occurs_at(v@, p@, k),
        },
{
    let r = find_from(v, p, 0);
    proof {
        if r is None {
            assert forall|k: int| !occurs_at(v@, p@, k) by {
                if k < 0 {
                } else {
                }
            }
        }
    }
    r
}

pub fn contains(v: &[char], p: &[char]) -> (b: bool)
    ensures
        b == seq_contains_seq(v@, p@),
{
    match find(v, p) {
        Some(_) => true,
        None => false,
    }
}

/// Index of the first occurrence of character `c` in `s` at or after `from`, as a spec.
pub open spec fn first_char_from(s: Seq<char>, c: char, from: int, i: int) -> bool {
    from <= i < s.len() && s[i] == c && forall|k: int| from <= k < i ==> s[k] != c
}

pub fn find_char_from(v: &[char], c: char, from: usize) -> (r: Option<usize>)
    ensures
        match r {
            Some(i) => first_char_from(v@, c, from as int, i as int),
            None => forall|k: int| from <= k < v@.len() ==> v@[k] != c,
        },
{
    let mut i = from;
    while i < v.len()
        invariant
            from <= i,
            forall|k: int| from <= k < i && k < v@.len() ==> v@[k] != c,
        decreases v@.len() - i,
    {
        if v[i] == c {
            return Some(i);
        }
        i = i + 1;
    }
    None
}

pub open spec fn seq_has_char(s: Seq<char>, c: char) -> bool {
    exists|i: int| 0 <= i < s.len() && s[i] == c
}

pub fn has_char(v: &[char], c: char) -> (b: bool)
    ensures
        b == seq_has_char(v@, c),
{
    match find_char_from(v, c, 0) {
        Some(i) => true,
        None => false,
    }
}

/// The last occurrence of `c` in `s`, as a spec.
pub open spec fn last_char(s: Seq<char>, c: char, i: int) -> bool {
    0 <= i < s.len() && s[i] == c && forall|k: int| i < k < s.len() ==> s[k] != c
}

pub fn rfind_char(v: &[char], c: char) -> (r: Option<usize>)
    ensures
        match r {
            Some(i) => last_char(v@, c, i as int),
            None => !seq_has_char(v@, c),
        },
{
    let mut i = v.len();
    while i > 0
        invariant
            i <= v@.len(),
            forall|k: int| i <= k < v@.len() ==> v@[k] != c,
        decreases i,
    {
        if v[i - 1] == c {
            return Some(i - 1);
        }
        i = i - 1;
    }
    None
}

// ---------------------------------------------------------------------------
// Trimming

/// Number of leading whitespace characters of `s`.
pub open spec fn leading_ws(s: Seq<char>) -> nat
    decreases s.len(),
{
    if s.len() > 0 && unicode_whitespace(s[0]) {
        1 + leading_ws(s.drop_first())
    } else {
        0
    }
}

/// Length of `s` once trailing whitespace is removed.
pub open spec fn without_trailing_ws(s: Seq<char>) -> nat
    decreases s.len(),
{
    if s.len() > 0 && unicode_whitespace(s.last()) {
        without_trailing_ws(s.drop_last())
    } else {
        s.len()
    }
}

/// `str::trim_start`.
pub open spec fn trim_start(s: Seq<char>) -> Seq<char> {
    s.skip(leading_ws(s) as int)
}

/// `str::trim_end`.
pub open spec fn trim_end(s: Seq<char>) -> Seq<char> {
    s.take(without_trailing_ws(s) as int)
}

/// `str::trim`.
pub open spec fn trim(s: Seq<char>) -> Seq<char> {
    trim_end(trim_start(s))
}

proof fn lemma_leading_ws(s: Seq<char>, a: int)
    requires
        0 <= a <= s.len(),
        forall|k: int| 0 <= k < a ==> unicode_whitespace(#[trigger] s[k]),
        a == s.len() || !unicode_whitespace(s[a]),
    ensures
        leading_ws(s) == a,
    decreases a,
{
    if a > 0 {
        assert(unicode_whitespace(s[0]));
        let t = s.drop_first();
        assert forall|k: int| 0 <= k < a - 1 implies unicode_whitespace(#[trigger] t[k]) by {
            assert(t[k] == s[k + 1]);
        }
        lemma_leading_ws(t, a - 1);
    }
}

proof fn lemma_trailing_ws(s: Seq<char>, b: int)
    requires
        0 <= b <= s.len(),
        forall|k: int| b <= k < s.len() ==> unicode_whitespace(#[trigger] s[k]),
        b == 0 || !unicode_whitespace(s[b - 1]),
    ensures
        without_trailing_ws(s) == b,
    decreases s.len(),
{
    if b < s.len() {
        assert(unicode_whitespace(s.last()));
        let t = s.drop_last();
        assert forall|k: int| b <= k < t.len() implies unicode_whitespace(#[trigger] t[k]) by {
            assert(t[k] == s[k]);
        }
        lemma_trailing_ws(t, b);
    } else if s.len() > 0 {
        assert(s.last() == s[b - 1]);
    }
}

/// Bounds `(a, b)` such that `v[a..b]` is `v` with surrounding whitespace removed.
pub fn trim_bounds(v: &[char]) -> (r: (usize, usize))
    ensures
        r.0 <= r.1 <= v@.len(),
        v@.subrange(r.0 as int, r.1 as int) == trim(v@),
        r.0 as int == leading_ws(v@),
{
    let mut a: usize = 0;
    while a < v.len() && is_whitespace(v[a])
        invariant
            a <= v@.len(),
            forall|k: int| 0 <= k < a ==> unicode_whitespace(#[trigger] v@[k]),
        decreases v@.len() - a,
    {
        a = a + 1;
    }
    proof {
        lemma_leading_ws(v@, a as int);
    }
    let mut b: usize = v.len();
    while b > a && is_whitespace(v[b - 1])
        invariant
            a <= b <= v@.len(),
            forall|k: int| b <= k < v@.len() ==> unicode_whitespace(#[trigger] v@[k]),
        decreases b,
    {
        b = b - 1;
    }
    proof {
        let t = v@.skip(a as int);
        assert forall|k: int| (b - a) <= k < t.len() implies unicode_whitespace(#[trigger] t[k]) by {
            assert(t[k] == v@[k + a]);
        }
        if b > a {
            assert(t[b - a - 1] == v@[b - 1]);
        }
        lemma_trailing_ws(t, (b - a) as int);
        assert(t.take((b - a) as int) =~= v@.subrange(a as int, b as int));
    }
    (a, b)
}

/// `str::trim` on characters.
pub fn trim_chars(v: &[char]) -> (r: Vec<char>)
    ensures
        r@ == trim(v@),
{
    let (a, b) = trim_bounds(v);
    slice_range(v, a, b)
}

/// The characters `v[from..to]` as a new vector.
pub fn slice_range(v: &[char], from: usize, to: usize) -> (r: Vec<char>)
    requires
        from <= to <= v@.len(),
    ensures
        r@ == v@.subrange(from as int, to as int),
{
    let mut r: Vec<char> = Vec::new();
    let mut i = from;
    while i < to
        invariant
            from <= i <= to <= v@.len(),
            r@ == v@.subrange(from as int, i as int),
        decreases to - i,
    {
        r.push(v[i]);
        i = i + 1;
        assert(r@ == v@.subrange(from as int, i as int));
    }
    r
}

/// Whether `v` is empty once trimmed.
pub fn is_blank(v: &[char]) -> (b: bool)
    ensures
        b == (trim(v@).len() == 0),
{
    let (a, e) = trim_bounds(v);
    a == e
}


// ---------------------------------------------------------------------------
// Splitting

/// The views of a sequence of character vectors.
pub open spec fn views(v: Seq<Vec<char>>) -> Seq<Seq<char>> {
    v.map_values(|x: Vec<char>| x@)
}

/// Index of the first `c` in `s`, or `-1` when there is none.
pub open spec fn char_index(s: Seq<char>, c: char) -> int
    decreases s.len(),
{
    if s.len() == 0 {
        -1
    } else if s[0] == c {
        0
    } else {
        let r = char_index(s.drop_first(), c);
        if r < 0 {
            -1
        } else {
            r + 1
        }
    }
}

pub proof fn lemma_char_index(s: Seq<char>, c: char)
    ensures
        -1 <= char_index(s, c) < s.len(),
        char_index(s, c) >= 0 ==> first_char_from(s, c, 0, char_index(s, c)),
        char_index(s, c) < 0 ==> !seq_has_char(s, c),
    decreases s.len(),
{
    if s.len() > 0 && s[0] != c {
        let t = s.drop_first();
        lemma_char_index(t, c);
        let r = char_index(t, c);
        if r >= 0 {
            assert forall|k: int| 0 <= k < r + 1 implies s[k] != c by {
                if k > 0 {
                    assert(s[k] == t[k - 1]);
                }
            }
        } else {
            assert forall|k: int| 0 <= k < s.len() implies s[k] != c by {
                if k > 0 {
                    assert(s[k] == t[k - 1]);
                }
            }
        }
    }
}

pub proof fn lemma_char_index_of_first(s: Seq<char>, c: char, i: int)
    requires
        first_char_from(s, c, 0, i),
    ensures
        char_index(s, c) == i,
{
    lemma_char_index(s, c);
    let r = char_index(s, c);
    if r < 0 {
        assert(s[i] == c);
    } else if r < i {
        assert(s[r] == c);
    } else if r > i {
        assert(s[i] == c);
    }
}

pub proof fn lemma_char_index_none(s: Seq<char>, c: char)
    requires
        forall|k: int| 0 <= k < s.len() ==> s[k] != c,
    ensures
        char_index(s, c) == -1,
{
    lemma_char_index(s, c);
    if char_index(s, c) >= 0 {
        assert(s[char_index(s, c)] == c);
    }
}

/// `str::split` on a single character: the pieces between occurrences of `c`.
pub open spec fn split_on(s: Seq<char>, c: char) -> Seq<Seq<char>>
    decreases s.len(),
{
    let i = char_index(s, c);
    if i < 0 {
        seq![s]
    } else {
        proof {
            lemma_char_index(s, c);
        }
        seq![s.take(i)] + split_on(s.skip(i + 1), c)
    }
}

/// The pieces of `v` between occurrences of `c`, like `str::split(c)`.
pub fn split_chars(v: &[char], c: char) -> (r: Vec<Vec<char>>)
    ensures
        views(r@) == split_on(v@, c),
{
    let mut r: Vec<Vec<char>> = Vec::new();
    let mut start: usize = 0;
    let ghost n = v.len();
    assert(v@.skip(0) =~= v@);
    assert(views(r@) + split_on(v@, c) =~= split_on(v@, c));
    loop
        invariant
            start <= v@.len(),
            n == v@.len(),
            views(r@) + split_on(v@.skip(start as int), c) == split_on(v@, c),
        decreases v@.len() - start,
    {
        let ghost t = v@.skip(start as int);
        match find_char_from(v, c, start) {
            Some(i) => {
                let piece = slice_range(v, start, i);
                proof {
                    assert(first_char_from(t, c, 0, i - start)) by {
                        assert forall|k: int| 0 <= k < i - start implies t[k] != c by {
                            assert(t[k] == v@[k + start]);
                        }
                    }
                    lemma_char_index_of_first(t, c, i - start);
                    assert(t.take(i - start) =~= v@.subrange(start as int, i as int));
                    assert(t.skip(i - start + 1) =~= v@.skip(i + 1));
                    assert(split_on(t, c) == seq![piece@] + split_on(v@.skip(i + 1), c));
                }
                let ghost old_r = r@;
                r.push(piece);
                proof {
                    assert(views(r@) =~= views(old_r).push(piece@));
                    assert(views(r@) + split_on(v@.skip(i + 1), c) =~= views(old_r) + (seq![piece@]
                        + split_on(v@.skip(i + 1), c)));
                }
                start = i + 1;
            },
            None => {
                let piece = slice_range(v, start, v.len());
                proof {
                    assert forall|k: int| 0 <= k < t.len() implies t[k] != c by {
                        assert(t[k] == v@[k + start]);
                    }
                    lemma_char_index_none(t, c);
                    assert(t =~= piece@);
                }
                let ghost old_r = r@;
                r.push(piece);
                proof {
                    assert(views(r@) =~= views(old_r).push(piece@));
                }
                return r;
            },
        }
    }
}

/// A line without the `\r` of a `\r\n` ending.
pub open spec fn strip_cr(p: Seq<char>) -> Seq<char> {
    if p.len() > 0 && p.last() == '\r' {
        p.drop_last()
    } else {
        p
    }
}

/// `str::lines`: the pieces between `\n`, each terminated piece without a trailing
/// `\r`, and without the empty piece after a final line ending.
pub open spec fn lines_of(s: Seq<char>) -> Seq<Seq<char>> {
    let ps = split_on(s, '\n');
    let body = ps.drop_last().map_values(|p: Seq<char>| strip_cr(p));
    if ps.last().len() == 0 {
        body
    } else {
        body.push(ps.last())
    }
}

pub proof fn lemma_split_nonempty(s: Seq<char>, c: char)
    ensures
        split_on(s, c).len() >= 1,
    decreases s.len(),
{
    let i = char_index(s, c);
    if i >= 0 {
        lemma_char_index(s, c);
        lemma_split_nonempty(s.skip(i + 1), c);
    }
}

/// The lines of `v`, like `str::lines`.
pub fn lines(v: &[char]) -> (r: Vec<Vec<char>>)
    ensures
        views(r@) == lines_of(v@),
{
    let ps = split_chars(v, '\n');
    proof {
        lemma_split_nonempty(v@, '\n');
    }
    let ghost ps_v = split_on(v@, '\n');
    let n = ps.len();
    let mut r: Vec<Vec<char>> = Vec::new();
    let mut k: usize = 0;
    while k + 1 < n
        invariant
            n == ps@.len(),
            n >= 1,
            views(ps@) == ps_v,
            k < n,
            views(r@) == ps_v.drop_last().take(k as int).map_values(|p: Seq<char>| strip_cr(p)),
        decreases n - k,
    {
        let p = &ps[k];
        assert(p@ == ps_v[k as int]);
        let mut q: Vec<char> = p.clone();
        if q.len() > 0 && q[q.len() - 1] == '\r' {
            q.pop();
        }
        let ghost old_r = r@;
        r.push(q);
        proof {
            assert(q@ == strip_cr(ps_v[k as int]));
            assert(views(r@) =~= views(old_r).push(q@));
            assert(ps_v.drop_last().take(k + 1) =~= ps_v.drop_last().take(k as int).push(
                ps_v[k as int],
            ));
        }
        k = k + 1;
    }
    assert(ps_v.drop_last().take(k as int) =~= ps_v.drop_last());
    let last = &ps[n - 1];
    assert(last@ == ps_v.last());
    if last.len() > 0 {
        let ghost old_r = r@;
        r.push(last.clone());
        assert(views(r@) =~= views(old_r).push(ps_v.last()));
    }
    r
}

/// The characters of every line in `lines`.
pub fn chars_of_lines(lines: &[&str]) -> (r: Vec<Vec<char>>)
    ensures
        r@.len() == lines@.len(),
        forall|i: int| 0 <= i < lines@.len() ==> (#[trigger] r@[i])@ == lines@[i]@,
{
    let mut r: Vec<Vec<char>> = Vec::new();
    let mut i: usize = 0;
    while i < lines.len()
        invariant
            i <= lines@.len(),
            r@.len() == i,
            forall|k: int| 0 <= k < i ==> (#[trigger] r@[k])@ == lines@[k]@,
        decreases lines@.len() - i,
    {
        r.push(chars_of(lines[i]));
        i = i + 1;
    }
    r
}


// ---------------------------------------------------------------------------
// Prefix stripping, tokens, pieces before a character

/// `str::strip_prefix`.
pub open spec fn strip_prefix(s: Seq<char>, p: Seq<char>) -> Option<Seq<char>> {
    if seq_starts_with(s, p) {
        Some(s.skip(p.len() as int))
    } else {
        None
    }
}

pub fn strip_prefix_chars(v: &[char], p: &[char]) -> (r: Option<Vec<char>>)
    ensures
        match r {
            Some(t) => strip_prefix(v@, p@) == Some(t@),
            None => strip_prefix(v@, p@) is None,
        },
{
    if starts_with(v, p) {
        let t = slice_range(v, p.len(), v.len());
        assert(t@ =~= v@.skip(p@.len() as int));
        Some(t)
    } else {
        None
    }
}

/// Number of leading characters of `s` that are not whitespace.
pub open spec fn token_len(s: Seq<char>) -> nat
    decreases s.len(),
{
    if s.len() > 0 && !unicode_whitespace(s[0]) {
        1 + token_len(s.drop_first())
    } else {
        0
    }
}

/// `split_whitespace().next().unwrap_or("")`: the first run of non-whitespace.
pub open spec fn first_token(s: Seq<char>) -> Seq<char> {
    let t = trim_start(s);
    t.take(token_len(t) as int)
}

proof fn lemma_token_len(s: Seq<char>, n: int)
    requires
        0 <= n <= s.len(),
        forall|k: int| 0 <= k < n ==> !unicode_whitespace(#[trigger] s[k]),
        n == s.len() || unicode_whitespace(s[n]),
    ensures
        token_len(s) == n,
    decreases n,
{
    if n > 0 {
        assert(!unicode_whitespace(s[0]));
        let t = s.drop_first();
        assert forall|k: int| 0 <= k < n - 1 implies !unicode_whitespace(#[trigger] t[k]) by {
            assert(t[k] == s[k + 1]);
        }
        lemma_token_len(t, n - 1);
    }
}

pub fn first_token_chars(v: &[char]) -> (r: Vec<char>)
    ensures
        r@ == first_token(v@),
{
    let mut a: usize = 0;
    while a < v.len() && is_whitespace(v[a])
        invariant
            a <= v@.len(),
            forall|k: int| 0 <= k < a ==> unicode_whitespace(#[trigger] v@[k]),
        decreases v@.len() - a,
    {
        a = a + 1;
    }
    proof {
        lemma_leading_ws(v@, a as int);
    }
    let mut b: usize = a;
    while b < v.len() && !is_whitespace(v[b])
        invariant
            a <= b <= v@.len(),
            forall|k: int| a <= k < b ==> !unicode_whitespace(#[trigger] v@[k]),
        decreases v@.len() - b,
    {
        b = b + 1;
    }
    proof {
        let t = v@.skip(a as int);
        assert forall|k: int| 0 <= k < b - a implies !unicode_whitespace(#[trigger] t[k]) by {
            assert(t[k] == v@[k + a]);
        }
        if b < v@.len() {
            assert(t[b - a] == v@[b as int]);
        }
        lemma_token_len(t, (b - a) as int);
        assert(t.take((b - a) as int) =~= v@.subrange(a as int, b as int));
    }
    slice_range(v, a, b)
}

/// `split(c).next().unwrap_or("")`: the part of `s` before the first `c`.
pub open spec fn before_char(s: Seq<char>, c: char) -> Seq<char> {
    let i = char_index(s, c);
    if i < 0 {
        s
    } else {
        s.take(i)
    }
}

pub fn before_char_chars(v: &[char], c: char) -> (r: Vec<char>)
    ensures
        r@ == before_char(v@, c),
{
    match find_char_from(v, c, 0) {
        Some(i) => {
            proof {
                lemma_char_index_of_first(v@, c, i as int);
            }
            slice_range(v, 0, i)
        },
        None => {
            proof {
                lemma_char_index_none(v@, c);
            }
            let r = slice_range(v, 0, v.len());
            assert(r@ =~= v@);
            r
        },
    }
}

/// The string made of `v`.
pub fn string_of(v: &Vec<char>) -> (s: String)
    ensures
        s@ == v@,
{
    string_from_chars(v.as_slice())
}

/// The index of the first occurrence of `p` in `s`, if any.
pub open spec fn find_spec(s: Seq<char>, p: Seq<char>) -> Option<int> {
    if exists|i: int| occurs_at(s, p, i) {
        Some(choose|i: int| is_first_occurrence_from(s, p, 0, i))
    } else {
        None
    }
}

/// `str::find` on characters: the first occurrence of `p` in `v`.
pub fn find_first(v: &[char], p: &[char]) -> (r: Option<usize>)
    ensures
        match r {
            Some(i) => find_spec(v@, p@) == Some(i as int) && i + p@.len() <= v@.len(),
            None => find_spec(v@, p@) is None,
        },
{
    let r = find(v, p);
    match r {
        Some(i) => {
            proof {
                assert(occurs_at(v@, p@, i as int));
                let j = choose|j: int| is_first_occurrence_from(v@, p@, 0, j);
                assert(is_first_occurrence_from(v@, p@, 0, i as int));
                if j < i {
                    assert(!occurs_at(v@, p@, j));
                } else if j > i {
                    assert(!occurs_at(v@, p@, i as int));
                }
            }
            Some(i)
        },
        None => None,
    }
}

/// `str::trim_end` on characters.
pub fn trim_end_chars(v: &[char]) -> (r: Vec<char>)
    ensures
        r@ == trim_end(v@),
{
    let mut b: usize = v.len();
    while b > 0 && is_whitespace(v[b - 1])
        invariant
            b <= v@.len(),
            forall|k: int| b <= k < v@.len() ==> unicode_whitespace(#[trigger] v@[k]),
        decreases b,
    {
        b = b - 1;
    }
    proof {
        lemma_trailing_ws(v@, b as int);
    }
    slice_range(v, 0, b)
}

/// The characters of `a` followed by those of `b`.
pub fn concat(a: &[char], b: &[char]) -> (r: Vec<char>)
    ensures
        r@ == a@ + b@,
{
    let mut r = slice_range(a, 0, a.len());
    let mut i: usize = 0;
    while i < b.len()
        invariant
            i <= b@.len(),
            r@ == a@ + b@.take(i as int),
        decreases b@.len() - i,
    {
        r.push(b[i]);
        i = i + 1;
        assert(r@ =~= a@ + b@.take(i as int));
    }
    assert(b@.take(b@.len() as int) =~= b@);
    r
}

/// The lowercase form of a string, as `str::to_lowercase` computes it.
pub uninterp spec fn lowercase(s: Seq<char>) -> Seq<char>;

/// `str::to_lowercase`: the lowercase equivalent of `s` under Unicode's
/// `Lowercase` property. Its result is named by `lowercase`.
#[verifier::external_body]
pub fn to_lowercase(s: &str) -> (r: String)
    ensures
        r@ == lowercase(s@),
{
    s.to_lowercase()
}

/// The part of `s` before the first occurrence of `p` (all of `s` when `p`
/// does not occur), like `split(p).next().unwrap_or("")`.
pub open spec fn before_seq(s: Seq<char>, p: Seq<char>) -> Seq<char> {
    match find_spec(s, p) {
        Some(i) => s.take(i),
        None => s,
    }
}

pub fn before_seq_chars(v: &[char], p: &[char]) -> (r: Vec<char>)
    ensures
        r@ == before_seq(v@, p@),
{
    match find_first(v, p) {
        Some(i) => {
            let r = slice_range(v, 0, i);
            assert(r@ =~= v@.take(i as int));
            r
        },
        None => {
            let r = slice_range(v, 0, v.len());
            assert(r@ =~= v@);
            r
        },
    }
}

/// `str::trim_start` on characters.
pub fn trim_start_chars(v: &[char]) -> (r: Vec<char>)
    ensures
        r@ == trim_start(v@),
{
    let mut a: usize = 0;
    while a < v.len() && is_whitespace(v[a])
        invariant
            a <= v@.len(),
            forall|k: int| 0 <= k < a ==> unicode_whitespace(#[trigger] v@[k]),
        decreases v@.len() - a,
    {
        a = a + 1;
    }
    proof {
        lemma_leading_ws(v@, a as int);
    }
    let r = slice_range(v, a, v.len());
    assert(r@ =~= v@.skip(a as int));
    r
}

} // verus!
