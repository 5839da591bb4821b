//! Line numbers and in-line positions from byte offsets into a file, through
//! an index of the offsets at which lines start.
use vstd::prelude::*;

use crate::db::FixtureDatabase;

verus! {

/// The indices of `bytes` that hold `b`, in increasing order.
pub open spec fn byte_positions(bytes: Seq<u8>, b: u8) -> Seq<int>
    decreases bytes.len(),
{
    if bytes.len() == 0 {
        Seq::empty()
    } else {
        let r = byte_positions(bytes.drop_last(), b);
        if bytes.last() == b {
            r.push(bytes.len() - 1)
        } else {
            r
        }
    }
}

/// `memchr::memchr_iter(needle, haystack)`, collected: the positions of every
/// occurrence of `needle` in `haystack`, front to back.
#[verifier::external_body]
fn memchr_positions(needle: u8, haystack: &[u8]) -> (r: Vec<usize>)
    ensures
        r@.map_values(|p: usize| p as int) == byte_positions(haystack@, needle),
{
    memchr::memchr_iter(needle, haystack).collect()
}

/// The offsets at which the lines of a text with UTF-8 encoding `bytes` start:
/// `0` and each offset just after a `\n`.
pub open spec fn line_starts(bytes: Seq<u8>) -> Seq<int> {
    seq![0int] + byte_positions(bytes, 10u8).map_values(|p: int| p + 1)
}

/// Whether `s` is strictly increasing.
pub open spec fn increasing(s: Seq<usize>) -> bool {
    forall|i: int, j: int| 0 <= i < j < s.len() ==> s[i] < s[j]
}

/// The 1-based line that holds byte `offset`: the number of line starts at or
/// before it.
pub open spec fn line_of(index: Seq<usize>, offset: usize) -> int
    decreases index.len(),
{
    if index.len() == 0 {
        0
    } else if index.last() <= offset {
        index.len() as int
    } else {
        line_of(index.drop_last(), offset)
    }
}

proof fn lemma_positions_increasing(bytes: Seq<u8>, b: u8)
    ensures
        forall|i: int, j: int|
            0 <= i < j < byte_positions(bytes, b).len() ==> #[trigger] byte_positions(bytes, b)[i]
                < #[trigger] byte_positions(bytes, b)[j],
        forall|i: int|
            0 <= i < byte_positions(bytes, b).len() ==> 0 <= #[trigger] byte_positions(bytes, b)[i]
                < bytes.len(),
    decreases bytes.len(),
{
    if bytes.len() > 0 {
        let t = bytes.drop_last();
        lemma_positions_increasing(t, b);
        let r = byte_positions(t, b);
        let p = byte_positions(bytes, b);
        if bytes.last() == b {
            assert(p == r.push(bytes.len() - 1));
            assert forall|i: int| 0 <= i < p.len() implies 0 <= #[trigger] p[i] < bytes.len() by {
                if i < r.len() {
                    assert(p[i] == r[i]);
                }
            }
            assert forall|i: int, j: int| 0 <= i < j < p.len() implies #[trigger] p[i] < #[trigger] p[j] by {
                if j < r.len() {
                    assert(p[i] == r[i] && p[j] == r[j]);
                } else {
                    assert(p[i] == r[i]);
                }
            }
        } else {
            assert(p == r);
        }
    }
}

proof fn lemma_line_of(index: Seq<usize>, offset: usize, k: int)
    requires
        increasing(index),
        0 <= k <= index.len(),
        forall|i: int| 0 <= i < k ==> index[i] <= offset,
        k == index.len() || index[k] > offset,
    ensures
        line_of(index, offset) == k,
    decreases index.len(),
{
    if index.len() > 0 {
        if k < index.len() {
            assert(index.last() >= index[k]);
            let t = index.drop_last();
            assert forall|i: int, j: int| 0 <= i < j < t.len() implies t[i] < t[j] by {
                assert(t[i] == index[i] && t[j] == index[j]);
            }
            assert forall|i: int| 0 <= i < k implies t[i] <= offset by {
                assert(t[i] == index[i]);
            }
            if k < t.len() {
                assert(t[k] == index[k]);
            }
            lemma_line_of(t, offset, k);
        } else {
            assert(index.last() == index[index.len() - 1]);
        }
    }
}

impl FixtureDatabase {
    /// The byte offsets at which the lines of `content` start.
    pub fn build_line_index(content: &str) -> (r: Vec<usize>)
        ensures
            r@.map_values(|p: usize| p as int) == line_starts(vstd::utf8::encode_utf8(content@)),
            increasing(r@),
            r@.len() > 0 && r@[0] == 0,
    {
        let bytes = content.as_bytes();
        let n = bytes.len();
        let positions = memchr_positions(10u8, bytes);
        let ghost ps = byte_positions(bytes@, 10u8);
        proof {
            lemma_positions_increasing(bytes@, 10u8);
        }
        let mut index: Vec<usize> = Vec::new();
        index.push(0);
        let mut i: usize = 0;
        while i < positions.len()
            invariant
                i <= positions@.len(),
                positions@.map_values(|p: usize| p as int) == ps,
                ps == byte_positions(bytes@, 10u8),
                forall|a: int, b: int| 0 <= a < b < ps.len() ==> #[trigger] ps[a] < #[trigger] ps[b],
                forall|a: int| 0 <= a < ps.len() ==> 0 <= #[trigger] ps[a] < bytes@.len(),
                bytes@.len() <= usize::MAX,
                index@.len() == i + 1,
                index@[0] == 0,
                forall|k: int| 0 < k <= i ==> index@[k] == ps[k - 1] + 1,
            decreases positions@.len() - i,
        {
            assert(ps[i as int] == positions@[i as int] as int);
            index.push(positions[i] + 1);
            i = i + 1;
        }
        proof {
            let want = seq![0int] + ps.map_values(|p: int| p + 1);
            assert(index@.map_values(|p: usize| p as int) =~= want);
            assert forall|a: int, b: int| 0 <= a < b < index@.len() implies index@[a] < index@[b] by {
                if a > 0 {
                    assert(ps[a - 1] < ps[b - 1]);
                }
            }
        }
        index
    }

    /// The 1-based line holding byte `offset`, given the line-start index.
    pub fn get_line_from_offset(&self, offset: usize, line_index: &[usize]) -> (r: usize)
        requires
            increasing(line_index@),
        ensures
            r == line_of(line_index@, offset),
    {
        let mut lo: usize = 0;
        let mut hi: usize = line_index.len();
        while lo < hi
            invariant
                lo <= hi <= line_index@.len(),
                increasing(line_index@),
                forall|i: int| 0 <= i < lo ==> line_index@[i] <= offset,
                forall|i: int| hi <= i < line_index@.len() ==> line_index@[i] > offset,
            decreases hi - lo,
        {
            let mid = lo + (hi - lo) / 2;
            if line_index[mid] <= offset {
                lo = mid + 1;
            } else {
                hi = mid;
            }
        }
        proof {
            lemma_line_of(line_index@, offset, lo as int);
        }
        lo
    }

    /// The byte position of `offset` within its line.
    pub fn get_char_position_from_offset(&self, offset: usize, line_index: &[usize]) -> (r: usize)
        requires
            increasing(line_index@),
            line_index@.len() > 0,
            line_index@[0] == 0,
        ensures
            r == offset - line_index@[line_of(line_index@, offset) - 1],
    {
        let line = self.get_line_from_offset(offset, line_index);
        proof {
            lemma_line_of_positive(line_index@, offset);
        }
        let start = line_index[line - 1];
        offset - start
    }
}

proof fn lemma_line_of_positive(index: Seq<usize>, offset: usize)
    requires
        increasing(index),
        index.len() > 0,
        index[0] == 0,
    ensures
        1 <= line_of(index, offset) <= index.len(),
        index[line_of(index, offset) - 1] <= offset,
    decreases index.len(),
{
    if index.len() > 1 && index.last() > offset {
        let t = index.drop_last();
        assert forall|i: int, j: int| 0 <= i < j < t.len() implies t[i] < t[j] by {
            assert(t[i] == index[i] && t[j] == index[j]);
        }
        lemma_line_of_positive(t, offset);
    } else if index.len() == 1 {
        assert(index.last() == 0);
    }
}

} // verus!
