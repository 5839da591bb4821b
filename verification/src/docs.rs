//! Docstring clean-up, in the manner of Python's `inspect.cleandoc`.
use vstd::prelude::*;

use crate::actions::{byte_len, lemma_utf8_len_prefix};
use crate::db::FixtureDatabase;
use crate::imports::join;
use crate::lsp::{char_at_byte, char_index_at_byte, utf8_len};
use crate::text::{
    chars_of, is_blank, is_whitespace, leading_ws, lines, lines_of, slice_range,
    string_from_chars, trim, trim_chars, trim_start, trim_start_chars, unicode_whitespace, views,
};

verus! {

/// A line with nothing but whitespace.
pub open spec fn blank(l: Seq<char>) -> bool {
    trim(l).len() == 0
}

/// The index of the first line of `ls`, from `i` on, that is not blank.
pub open spec fn lead_blank(ls: Seq<Seq<char>>, i: int) -> int
    decreases ls.len() - i,
{
    if 0 <= i < ls.len() && blank(ls[i]) {
        lead_blank(ls, i + 1)
    } else {
        i
    }
}

/// The end of `ls[s..e]` once its trailing blank lines are dropped.
pub open spec fn trail_end(ls: Seq<Seq<char>>, s: int, e: int) -> int
    decreases e - s,
{
    if e > s && blank(ls[e - 1]) {
        trail_end(ls, s, e - 1)
    } else {
        e
    }
}

/// The lines of docstring `d` without the blank lines that lead or trail.
pub open spec fn doc_lines(d: Seq<char>) -> Seq<Seq<char>> {
    let ls = lines_of(d);
    let s = lead_blank(ls, 0);
    let e = trail_end(ls, s, ls.len() as int);
    ls.subrange(s, e)
}

/// The UTF-8 length of the indentation of `l`.
pub open spec fn indent_bytes(l: Seq<char>) -> nat {
    utf8_len(l.take(leading_ws(l) as int))
}

/// The least indentation among the lines of `ls` that are not blank.
pub open spec fn min_indent(ls: Seq<Seq<char>>) -> Option<nat>
    decreases ls.len(),
{
    if ls.len() == 0 {
        None
    } else {
        let r = min_indent(ls.drop_last());
        if blank(ls.last()) {
            r
        } else {
            match r {
                None => Some(indent_bytes(ls.last())),
                Some(m) => Some(
                    if indent_bytes(ls.last()) < m {
                        indent_bytes(ls.last())
                    } else {
                        m
                    },
                ),
            }
        }
    }
}

/// The indentation common to the lines after the first (0 where all are blank).
pub open spec fn common_indent(ls: Seq<Seq<char>>) -> nat {
    if ls.len() == 0 {
        0
    } else {
        match min_indent(ls.drop_first()) {
            Some(m) => m,
            None => 0,
        }
    }
}

/// A line after the first with `m` bytes of indentation removed: blank lines
/// become empty, lines no longer than `m` bytes lose their leading whitespace.
pub open spec fn dedent_line(l: Seq<char>, m: nat) -> Seq<char> {
    if blank(l) {
        Seq::empty()
    } else if utf8_len(l) > m {
        l.skip(char_at_byte(l, m as int)->0)
    } else {
        trim_start(l)
    }
}

/// Removing `m` bytes from the front of `l` cuts no character in two.
pub open spec fn dedent_safe(l: Seq<char>, m: nat) -> bool {
    blank(l) || utf8_len(l) <= m || char_at_byte(l, m as int) is Some
}

/// The first line trimmed, the others dedented by the common indentation.
pub open spec fn cleaned_lines(ls: Seq<Seq<char>>) -> Seq<Seq<char>> {
    Seq::new(
        ls.len(),
        |i: int|
            if i == 0 {
                trim(ls[0])
            } else {
                dedent_line(ls[i], common_indent(ls))
            },
    )
}

/// Docstring `d` cleaned up: surrounding blank lines dropped, the first line
/// trimmed, the common indentation of the others removed, lines joined by `\n`.
pub open spec fn cleandoc(d: Seq<char>) -> Seq<char> {
    join(cleaned_lines(doc_lines(d)), "\n"@)
}

/// Docstring `d` can be cleaned up: each line's UTF-8 length fits in a
/// `usize`, and the common indentation ends on a character boundary of every
/// line it is cut from.
pub open spec fn docstring_formattable(d: Seq<char>) -> bool {
    let ls = doc_lines(d);
    &&& forall|i: int| 0 <= i < ls.len() ==> utf8_len(#[trigger] ls[i]) <= usize::MAX
    &&& forall|i: int| 1 <= i < ls.len() ==> dedent_safe(#[trigger] ls[i], common_indent(ls))
}

proof fn lemma_leading(s: Seq<char>, a: int)
    requires
        0 <= a <= s.len(),
        forall|k: int| 0 <= k < a ==> unicode_whitespace(#[trigger] s[k]),
        a == s.len() || !unicode_whitespace(s[a]),
    ensures
        leading_ws(s) == a,
    decreases a,
{
    if a > 0 {
        let t = s.drop_first();
        assert forall|k: int| 0 <= k < a - 1 implies unicode_whitespace(#[trigger] t[k]) by {
            assert(t[k] == s[k + 1]);
        }
        lemma_leading(t, a - 1);
    }
}

/// The UTF-8 length of line `l` and of its indentation.
fn line_bytes(l: &[char]) -> (r: Option<(usize, usize)>)
    ensures
        match r {
            Some((b, k)) => b == utf8_len(l@) && k == indent_bytes(l@),
            None => utf8_len(l@) > usize::MAX,
        },
{
    let b = match byte_len(l) {
        Some(b) => b,
        None => return None,
    };
    let mut a: usize = 0;
    while a < l.len() && is_whitespace(l[a])
        invariant
            a <= l@.len(),
            forall|k: int| 0 <= k < a ==> unicode_whitespace(#[trigger] l@[k]),
        decreases l@.len() - a,
    {
        a = a + 1;
    }
    proof {
        lemma_leading(l@, a as int);
    }
    let prefix = slice_range(l, 0, a);
    assert(prefix@ =~= l@.take(a as int));
    match byte_len(&prefix) {
        Some(k) => Some((b, k)),
        None => {
            proof {
                lemma_utf8_len_prefix(l@, a as int);
            }
            None
        },
    }
}

/// `cleandoc`, or nothing where the docstring cannot be cleaned up.
fn cleandoc_checked(docstring: &str) -> (r: Option<Vec<char>>)
    ensures
        r is Some <==> docstring_formattable(docstring@),
        r matches Some(v) ==> v@ == cleandoc(docstring@),
{
    let v = chars_of(docstring);
    let ls = lines(&v);
    let ghost lv = views(ls@);
    assert(lv == lines_of(docstring@));
    let n = ls.len();
    let mut s: usize = 0;
    while s < n && is_blank(&ls[s])
        invariant
            s <= n == lv.len(),
            lv == views(ls@),
            lead_blank(lv, 0) == lead_blank(lv, s as int),
        decreases n - s,
    {
        assert(ls@[s as int]@ == lv[s as int]);
        s = s + 1;
    }
    if s < n {
        assert(ls@[s as int]@ == lv[s as int]);
    }
    let mut e: usize = n;
    while e > s && is_blank(&ls[e - 1])
        invariant
            s <= e <= n == lv.len(),
            lv == views(ls@),
            trail_end(lv, s as int, n as int) == trail_end(lv, s as int, e as int),
        decreases e,
    {
        assert(ls@[e - 1]@ == lv[e - 1]);
        e = e - 1;
    }
    if e > s {
        assert(ls@[e - 1]@ == lv[e - 1]);
    }
    let ghost d = lv.subrange(s as int, e as int);
    assert(d == doc_lines(docstring@));
    let cnt = e - s;
    // Byte lengths of every line, and the least indentation after the first.
    let mut sizes: Vec<usize> = Vec::new();
    let mut mo: Option<usize> = None;
    let mut j: usize = 0;
    while j < cnt
        invariant
            j <= cnt == d.len(),
            s + cnt <= n == lv.len(),
            lv == views(ls@),
            d == lv.subrange(s as int, (s + cnt) as int),
            d == doc_lines(docstring@),
            sizes@.len() == j,
            forall|i: int| 0 <= i < j ==> sizes@[i] == utf8_len(#[trigger] d[i]),
            j >= 1 ==> match mo {
                Some(m) => min_indent(d.drop_first().take(j - 1)) == Some(m as nat),
                None => min_indent(d.drop_first().take(j - 1)) is None,
            },
            j == 0 ==> mo is None,
        decreases cnt - j,
    {
        let line = &ls[s + j];
        assert(line@ == d[j as int]);
        let (b, k) = match line_bytes(line) {
            Some(p) => p,
            None => {
                assert(!(utf8_len(d[j as int]) <= usize::MAX));
                return None;
            },
        };
        sizes.push(b);
        if j >= 1 {
            let ghost t = d.drop_first().take(j as int);
            assert(t.drop_last() =~= d.drop_first().take(j - 1));
            assert(t.last() == d[j as int]);
            if !is_blank(line) {
                mo = match mo {
                    None => Some(k),
                    Some(m) => Some(
                        if k < m {
                            k
                        } else {
                            m
                        },
                    ),
                };
            }
        }
        j = j + 1;
    }
    let m: usize = match mo {
        Some(m) => m,
        None => 0,
    };
    proof {
        if cnt >= 1 {
            assert(d.drop_first().take(cnt - 1) =~= d.drop_first());
        }
    }
    assert(m == common_indent(d));
    let ghost cl = cleaned_lines(d);
    let mut out: Vec<Vec<char>> = Vec::new();
    let mut j: usize = 0;
    while j < cnt
        invariant
            j <= cnt == d.len(),
            s + cnt <= n == lv.len(),
            lv == views(ls@),
            d == lv.subrange(s as int, (s + cnt) as int),
            d == doc_lines(docstring@),
            sizes@.len() == cnt,
            forall|i: int| 0 <= i < cnt ==> sizes@[i] == utf8_len(#[trigger] d[i]),
            m == common_indent(d),
            cl == cleaned_lines(d),
            views(out@) == cl.take(j as int),
            forall|i: int| 1 <= i < j ==> dedent_safe(#[trigger] d[i], m as nat),
        decreases cnt - j,
    {
        let line = &ls[s + j];
        assert(line@ == d[j as int]);
        let piece: Vec<char> = if j == 0 {
            trim_chars(line)
        } else if is_blank(line) {
            Vec::new()
        } else if sizes[j] > m {
            match char_index_at_byte(line, m) {
                Some(k) => {
                    let p = slice_range(line, k, line.len());
                    assert(p@ =~= d[j as int].skip(char_at_byte(d[j as int], m as int)->0));
                    p
                },
                None => {
                    assert(!dedent_safe(d[j as int], common_indent(d)));
                    return None;
                },
            }
        } else {
            trim_start_chars(line)
        };
        assert(piece@ == cl[j as int]);
        let ghost before = views(out@);
        out.push(piece);
        assert(views(out@) =~= before.push(cl[j as int]));
        assert(cl.take(j + 1) =~= cl.take(j as int).push(cl[j as int]));
        j = j + 1;
    }
    assert(cl.take(cnt as int) =~= cl);
    proof {
        reveal_strlit("\n");
    }
    let nl = chars_of("\n");
    let joined = crate::imports::join_chars(&out, &nl);
    Some(joined)
}

/// Whether [`FixtureDatabase::format_docstring`] can clean up `docstring`.
pub fn can_format_docstring(docstring: &str) -> (b: bool)
    ensures
        b == docstring_formattable(docstring@),
{
    cleandoc_checked(docstring).is_some()
}

impl FixtureDatabase {
    /// The docstring as a hover shows it: leading and trailing blank lines
    /// dropped, the first line trimmed, the common indentation of the other
    /// lines removed.
    pub fn format_docstring(&self, docstring: String) -> (r: String)
        requires
            docstring_formattable(docstring@),
        ensures
            r@ == cleandoc(docstring@),
    {
        match cleandoc_checked(docstring.as_str()) {
            Some(v) => string_from_chars(&v),
            None => String::new(),
        }
    }
}

} // verus!
