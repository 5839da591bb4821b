//! Where a new parameter goes in a function signature that may span lines.
use vstd::prelude::*;

use crate::actions::byte_len;
use crate::db::FixtureDatabase;
use crate::docs::blank;
use crate::lsp::{char_width, utf8_len};
use crate::text::{chars_of, has_char, is_blank, lines, lines_of, seq_has_char, slice_range, views};
use crate::types::ParamInsertionInfo;

verus! {

/// The most lines, from the `def` line on, in which the signature is sought.
pub const MAX_SIGNATURE_SCAN_LINES: usize = 50;

/// Every line of `content` has a UTF-8 length that fits in a `usize`.
pub open spec fn lines_fit(content: Seq<char>) -> bool {
    forall|t: int| 0 <= t < lines_of(content).len() ==> utf8_len(#[trigger] lines_of(content)[t]) <= usize::MAX
}

/// A `:` follows the `)` at character `k` of line `i`: later on that line, or
/// on one of the next three lines before line `end`.
pub open spec fn colon_after(ls: Seq<Seq<char>>, end: int, i: int, k: int) -> bool {
    ||| seq_has_char(ls[i].skip(k + 1), ':')
    ||| exists|t: int| i + 1 <= t < end && t < i + 4 && seq_has_char(#[trigger] ls[t], ':')
}

/// Something other than whitespace stands between the `(` at character `ok`
/// of line `ol` and the `)` at character `k` of line `i`.
pub open spec fn has_params(ls: Seq<Seq<char>>, ol: int, ok: int, i: int, k: int) -> bool {
    if ol == i {
        !blank(ls[i].subrange(ok + 1, k))
    } else {
        ||| !blank(ls[ol].skip(ok + 1))
        ||| exists|t: int| ol + 1 <= t < i && !blank(#[trigger] ls[t])
        ||| !blank(ls[i].take(k))
    }
}

/// The scan for the signature's parentheses, at character `k` of line `i`:
/// before the first `(` (`found` false), or at parenthesis depth `depth`
/// after the `(` at character `ok` of line `ol`. At the `)` that closes the
/// first `(`, the insertion point is that `)`, provided a `:` follows it.
pub open spec fn sig_scan(
    ls: Seq<Seq<char>>,
    end: int,
    i: int,
    k: int,
    found: bool,
    depth: nat,
    ol: int,
    ok: int,
) -> Option<ParamInsertionInfo>
    decreases end - i, ls[i].len() - k,
{
    if i < 0 || i >= end || i >= ls.len() || k < 0 {
        None
    } else if k >= ls[i].len() {
        sig_scan(ls, end, i + 1, 0, found, depth, ol, ok)
    } else {
        let ch = ls[i][k];
        if !found {
            if ch == '(' {
                sig_scan(ls, end, i, k + 1, true, 1, i, k)
            } else {
                sig_scan(ls, end, i, k + 1, found, depth, ol, ok)
            }
        } else if ch == '(' {
            sig_scan(ls, end, i, k + 1, found, depth + 1, ol, ok)
        } else if ch == ')' && depth > 0 {
            if depth == 1 {
                if !colon_after(ls, end, i, k) {
                    None
                } else {
                    Some(
                        ParamInsertionInfo {
                            line: (i + 1) as usize,
                            char_pos: utf8_len(ls[i].take(k)) as usize,
                            needs_comma: has_params(ls, ol, ok, i, k),
                        },
                    )
                }
            } else {
                sig_scan(ls, end, i, k + 1, found, (depth - 1) as nat, ol, ok)
            }
        } else {
            sig_scan(ls, end, i, k + 1, found, depth, ol, ok)
        }
    }
}

/// Where a new parameter goes in the signature of the function whose `def`
/// is on 1-based line `function_line` of `content`: the signature's closing
/// `)` (its 1-based line and byte offset), and whether a comma is needed.
pub open spec fn param_insertion_info(content: Seq<char>, function_line: nat) -> Option<ParamInsertionInfo> {
    let ls = lines_of(content);
    let d: int = if function_line >= 1 {
        function_line - 1
    } else {
        0
    };
    let end: int = if ls.len() < d + MAX_SIGNATURE_SCAN_LINES {
        ls.len() as int
    } else {
        d + MAX_SIGNATURE_SCAN_LINES
    };
    sig_scan(ls, end, d, 0, false, 0, 0, 0)
}

fn colon_follows(ls: &Vec<Vec<char>>, end: usize, i: usize, k: usize) -> (b: bool)
    requires
        i < end <= ls@.len(),
        k < ls@[i as int]@.len(),
    ensures
        b == colon_after(views(ls@), end as int, i as int, k as int),
{
    let ghost lv = views(ls@);
    let line = &ls[i];
    assert(line@ == lv[i as int]);
    let n = line.len();
    let rest = slice_range(line, k + 1, n);
    assert(rest@ =~= lv[i as int].skip(k + 1));
    if has_char(&rest, ':') {
        return true;
    }
    let stop = if end - i < 4 {
        end
    } else {
        i + 4
    };
    let mut t = i + 1;
    while t < stop
        invariant
            i + 1 <= t <= stop <= end <= ls@.len(),
            stop <= i + 4,
            lv == views(ls@),
            !seq_has_char(lv[i as int].skip(k + 1), ':'),
            forall|u: int| i + 1 <= u < t ==> !seq_has_char(#[trigger] lv[u], ':'),
        decreases stop - t,
    {
        assert(ls@[t as int]@ == lv[t as int]);
        if has_char(&ls[t], ':') {
            return true;
        }
        t = t + 1;
    }
    false
}

fn params_between(ls: &Vec<Vec<char>>, ol: usize, ok: usize, i: usize, k: usize) -> (b: bool)
    requires
        ol <= i < ls@.len(),
        ok < ls@[ol as int]@.len(),
        k <= ls@[i as int]@.len(),
        ol == i ==> ok < k,
    ensures
        b == has_params(views(ls@), ol as int, ok as int, i as int, k as int),
{
    let ghost lv = views(ls@);
    assert(ls@[i as int]@ == lv[i as int]);
    assert(ls@[ol as int]@ == lv[ol as int]);
    if ol == i {
        let mid = slice_range(&ls[i], ok + 1, k);
        return !is_blank(&mid);
    }
    let on = ls[ol].len();
    let after_open = slice_range(&ls[ol], ok + 1, on);
    assert(after_open@ =~= lv[ol as int].skip(ok + 1));
    if !is_blank(&after_open) {
        return true;
    }
    let mut t = ol + 1;
    while t < i
        invariant
            ol + 1 <= t <= i < ls@.len(),
            lv == views(ls@),
            forall|u: int| ol + 1 <= u < t ==> blank(#[trigger] lv[u]),
        decreases i - t,
    {
        assert(ls@[t as int]@ == lv[t as int]);
        if !is_blank(&ls[t]) {
            return true;
        }
        t = t + 1;
    }
    let before_close = slice_range(&ls[i], 0, k);
    assert(before_close@ =~= lv[i as int].take(k as int));
    !is_blank(&before_close)
}

proof fn lemma_line_step(a: int, m: int, len: int)
    by (nonlinear_arith)
    requires
        0 <= a,
        0 <= len <= m,
    ensures
        a * m + len <= (a + 1) * m,
{
}

proof fn lemma_depth_bound(a: int, m: int, k: int)
    by (nonlinear_arith)
    requires
        0 <= a <= 50,
        0 <= k <= m,
        m == usize::MAX,
    ensures
        a * m + k + 1 < u128::MAX,
{
}

impl FixtureDatabase {
    /// Where a new parameter goes in the signature of the function whose
    /// `def` is on 1-based line `function_line` of `content`.
    pub fn get_function_param_insertion_info(&self, content: &str, function_line: usize) -> (r: Option<
        ParamInsertionInfo,
    >)
        requires
            function_line <= usize::MAX - 49,
        ensures
            r is Some ==> r == param_insertion_info(content@, function_line as nat),
            lines_fit(content@) ==> r == param_insertion_info(content@, function_line as nat),
    {
        let v = chars_of(content);
        let ls = lines(&v);
        let ghost lv = views(ls@);
        assert(lv == lines_of(content@));
        let d: usize = if function_line >= 1 {
            function_line - 1
        } else {
            0
        };
        let end: usize = if ls.len() < d + MAX_SIGNATURE_SCAN_LINES {
            ls.len()
        } else {
            d + MAX_SIGNATURE_SCAN_LINES
        };
        let ghost target = param_insertion_info(content@, function_line as nat);
        let mut found = false;
        let mut depth: u128 = 0;
        let mut ol: usize = 0;
        let mut ok: usize = 0;
        let mut i = d;
        while i < end
            invariant
                lv == views(ls@),
                lv == lines_of(content@),
                end <= ls@.len(),
                end <= d + 50,
                d <= i,
                target == param_insertion_info(content@, function_line as nat),
                target == sig_scan(lv, end as int, i as int, 0, found, depth as nat, ol as int, ok as int),
                depth <= (i - d) * (usize::MAX as int),
                found ==> ol < i && ok < lv[ol as int].len(),
            decreases end - i,
        {
            let line = &ls[i];
            assert(line@ == lv[i as int]);
            let ghost lo = depth as int;
            if byte_len(line).is_none() {
                assert(!(utf8_len(lines_of(content@)[i as int]) <= usize::MAX));
                return None;
            }
            let mut k: usize = 0;
            let mut jb: usize = 0;
            assert(lv[i as int].take(0) =~= Seq::<char>::empty());
            while k < line.len()
                invariant
                    lv == views(ls@),
                    line@ == lv[i as int],
                    i < end <= ls@.len(),
                    end <= d + 50,
                    d <= i,
                    k <= line@.len(),
                    utf8_len(line@) <= usize::MAX,
                    jb == utf8_len(line@.take(k as int)),
                    lv == lines_of(content@),
                    target == param_insertion_info(content@, function_line as nat),
                    target == sig_scan(lv, end as int, i as int, k as int, found, depth as nat, ol as int, ok as int),
                    depth <= (i - d) * (usize::MAX as int) + k,
                    found ==> (ol < i && ok < lv[ol as int].len()) || (ol == i && ok < k),
                decreases line@.len() - k,
            {
                let ch = line[k];
                proof {
                    assert(line@.take(k + 1).drop_last() =~= line@.take(k as int));
                    crate::actions::lemma_utf8_len_prefix(line@, k + 1);
                    lemma_depth_bound((i - d) as int, usize::MAX as int, k as int);
                }
                let w = char_width(ch);
                if !found {
                    if ch == '(' {
                        found = true;
                        depth = 1;
                        ol = i;
                        ok = k;
                    }
                } else if ch == '(' {
                    depth = depth + 1;
                } else if ch == ')' && depth > 0 {
                    if depth == 1 {
                        if !colon_follows(&ls, end, i, k) {
                            return None;
                        }
                        let needs_comma = params_between(&ls, ol, ok, i, k);
                        return Some(ParamInsertionInfo { line: i + 1, char_pos: jb, needs_comma: needs_comma });
                    } else {
                        depth = depth - 1;
                    }
                }
                jb = jb + w;
                k = k + 1;
            }
            proof {
                lemma_line_step((i - d) as int, usize::MAX as int, k as int);
            }
            i = i + 1;
        }
        None
    }
}

} // verus!
