//! Positions as the editor counts them (0-based lines) and as the database
//! records them (1-based lines, UTF-8 byte offsets within a line).
use vstd::prelude::*;

use crate::imports::{Position, Range};

verus! {

/// The number of bytes of the UTF-8 encoding of `c`.
pub open spec fn utf8_width(c: char) -> nat {
    if (c as u32) <= 0x7F {
        1
    } else if (c as u32) <= 0x7FF {
        2
    } else if (c as u32) <= 0xFFFF {
        3
    } else {
        4
    }
}

/// The number of bytes of the UTF-8 encoding of `s`.
pub open spec fn utf8_len(s: Seq<char>) -> nat
    decreases s.len(),
{
    if s.len() == 0 {
        0
    } else {
        utf8_len(s.drop_last()) + utf8_width(s.last())
    }
}

pub fn char_width(c: char) -> (w: usize)
    ensures
        w == utf8_width(c),
{
    let v = c as u32;
    if v <= 0x7F {
        1
    } else if v <= 0x7FF {
        2
    } else if v <= 0xFFFF {
        3
    } else {
        4
    }
}

/// The index of the character of `v` at which byte offset `b` falls exactly
/// (`b` is the UTF-8 length of the characters before it), if any.
pub open spec fn char_at_byte(v: Seq<char>, b: int) -> Option<int> {
    if exists|k: int| 0 <= k <= v.len() && utf8_len(v.take(k)) == b {
        Some(choose|k: int| 0 <= k <= v.len() && utf8_len(v.take(k)) == b)
    } else {
        None
    }
}

proof fn lemma_utf8_len_monotone(v: Seq<char>, j: int, k: int)
    requires
        0 <= j < k <= v.len(),
    ensures
        utf8_len(v.take(j)) < utf8_len(v.take(k)),
    decreases k - j,
{
    assert(v.take(k).drop_last() =~= v.take(k - 1));
    if j < k - 1 {
        lemma_utf8_len_monotone(v, j, k - 1);
    }
}

/// The index of the character at byte offset `b` of `v`, when `b` falls on a
/// character boundary.
pub fn char_index_at_byte(v: &[char], b: usize) -> (r: Option<usize>)
    ensures
        match r {
            Some(k) => char_at_byte(v@, b as int) == Some(k as int) && k <= v@.len(),
            None => char_at_byte(v@, b as int) is None,
        },
{
    let mut k: usize = 0;
    let mut sum: usize = 0;
    assert(v@.take(0) =~= Seq::<char>::empty());
    while k < v.len() && sum < b
        invariant
            k <= v@.len(),
            sum == utf8_len(v@.take(k as int)),
            forall|j: int| 0 <= j < k ==> utf8_len(v@.take(j)) < b,
        decreases v@.len() - k,
    {
        let w = char_width(v[k]);
        assert(v@.take(k + 1).drop_last() =~= v@.take(k as int));
        match sum.checked_add(w) {
            Some(s) => {
                sum = s;
            },
            None => {
                proof {
                    assert forall|j: int| 0 <= j <= v@.len() implies utf8_len(v@.take(j)) != b by {
                        if j > k + 1 {
                            lemma_utf8_len_monotone(v@, k + 1, j);
                        }
                    }
                }
                return None;
            },
        }
        k = k + 1;
    }
    proof {
        if sum == b {
            let c = choose|j: int| 0 <= j <= v@.len() && utf8_len(v@.take(j)) == b;
            if c < k {
                lemma_utf8_len_monotone(v@, c, k as int);
            } else if c > k {
                lemma_utf8_len_monotone(v@, k as int, c);
            }
        } else {
            assert forall|j: int| 0 <= j <= v@.len() implies utf8_len(v@.take(j)) != b by {
                if j > k {
                    lemma_utf8_len_monotone(v@, k as int, j);
                }
            }
        }
    }
    if sum == b {
        Some(k)
    } else {
        None
    }
}

/// An editor line (0-based) as a recorded line (1-based).
pub fn lsp_line_to_internal(line: u32) -> (r: usize)
    requires
        line < u32::MAX,
    ensures
        r == line + 1,
{
    (line + 1) as usize
}

/// A recorded line (1-based) as an editor line (0-based); line 0 stays 0.
pub fn internal_line_to_lsp(line: usize) -> (r: u32)
    ensures
        r == (if line == 0 {
            0
        } else {
            line - 1
        }) as u32,
{
    let l = if line == 0 {
        0
    } else {
        line - 1
    };
    #[verifier::truncate] (l as u32)
}

/// The range between two positions.
pub fn create_range(start_line: u32, start_char: u32, end_line: u32, end_char: u32) -> (r: Range)
    ensures
        r == (Range {
            start: Position { line: start_line, character: start_char },
            end: Position { line: end_line, character: end_char },
        }),
{
    Range {
        start: Position { line: start_line, character: start_char },
        end: Position { line: end_line, character: end_char },
    }
}

/// The empty range at one position.
pub fn create_point_range(line: u32, character: u32) -> (r: Range)
    ensures
        r == (Range {
            start: Position { line: line, character: character },
            end: Position { line: line, character: character },
        }),
{
    create_range(line, character, line, character)
}

} // verus!
