//! File-system paths as `/`-separated character sequences.
//!
//! The library keeps paths as they come from the scanner: absolute or
//! relative, normalized (no trailing `/`, no empty or `.` components).  On such
//! paths the operations below agree with `std::path::Path`.
use vstd::prelude::*;

use crate::text::{chars_of, ends_with, rfind_char, last_char, seq_has_char, seq_ends_with, split_chars, split_on, views};

verus! {

/// Index of the last `c` in `s`, or `-1` when there is none.
pub open spec fn rchar_index(s: Seq<char>, c: char) -> int
    decreases s.len(),
{
    if s.len() == 0 {
        -1
    } else if s.last() == c {
        s.len() - 1
    } else {
        rchar_index(s.drop_last(), c)
    }
}

pub proof fn lemma_rchar_index(s: Seq<char>, c: char)
    ensures
        -1 <= rchar_index(s, c) < s.len(),
        rchar_index(s, c) >= 0 ==> last_char(s, c, rchar_index(s, c)),
        rchar_index(s, c) < 0 ==> !seq_has_char(s, c),
    decreases s.len(),
{
    if s.len() > 0 && s.last() != c {
        let t = s.drop_last();
        lemma_rchar_index(t, c);
        if rchar_index(t, c) >= 0 {
            let r = rchar_index(t, c);
            assert forall|k: int| r < k < s.len() implies s[k] != c by {
                if k < s.len() - 1 {
                    assert(s[k] == t[k]);
                }
            }
        }
        if rchar_index(t, c) < 0 {
            assert forall|k: int| 0 <= k < s.len() implies s[k] != c by {
                if k < s.len() - 1 {
                    assert(s[k] == t[k]);
                }
            }
        }
    }
}

pub proof fn lemma_rchar_index_unique(s: Seq<char>, c: char, i: int)
    requires
        last_char(s, c, i),
    ensures
        rchar_index(s, c) == i,
{
    lemma_rchar_index(s, c);
    let r = rchar_index(s, c);
    if r < 0 {
        assert(s[i] == c);
    } else if r < i {
        assert(s[i] == c);
    } else if r > i {
        assert(s[r] == c);
    }
}

pub open spec fn root() -> Seq<char> {
    seq!['/']
}

/// `Path::parent`: `None` for the empty path and for `/`; otherwise the path
/// without its last component (`""` for a single relative component, `/` for a
/// single absolute one).
pub open spec fn parent(p: Seq<char>) -> Option<Seq<char>> {
    if p.len() == 0 || p == root() {
        None
    } else {
        let i = rchar_index(p, '/');
        if i < 0 {
            Some(Seq::<char>::empty())
        } else if i == 0 {
            Some(root())
        } else {
            Some(p.take(i))
        }
    }
}

pub proof fn lemma_parent_shorter(p: Seq<char>)
    ensures
        parent(p) matches Some(q) ==> q.len() < p.len(),
{
    lemma_rchar_index(p, '/');
    if p.len() == 1 && p != root() {
        assert(p.len() == 1);
    }
    if p.len() == 1 && rchar_index(p, '/') == 0 {
        assert(p[0] == '/');
        assert(p =~= root());
    }
}

/// `Path::join` of a single file name onto a directory.
pub open spec fn join(dir: Seq<char>, name: Seq<char>) -> Seq<char> {
    if dir.len() == 0 {
        name
    } else if dir.last() == '/' {
        dir + name
    } else {
        dir + seq!['/'] + name
    }
}

pub open spec fn conftest_name() -> Seq<char> {
    "conftest.py"@
}

/// The parent directory of `p`, if it has one.
pub fn parent_of(p: &[char]) -> (r: Option<Vec<char>>)
    ensures
        match r {
            Some(q) => parent(p@) == Some(q@),
            None => parent(p@) is None,
        },
{
    if p.len() == 0 || (p.len() == 1 && p[0] == '/') {
        proof {
            if p@.len() == 1 {
                assert(p@ =~= root());
            }
        }
        return None;
    }
    proof {
        if p@ == root() {
            assert(p@[0] == '/');
        }
    }
    match rfind_char(p, '/') {
        None => {
            proof {
                lemma_rchar_index(p@, '/');
                if rchar_index(p@, '/') >= 0 {
                    assert(p@[rchar_index(p@, '/')] == '/');
                }
            }
            Some(Vec::new())
        },
        Some(i) => {
            proof {
                lemma_rchar_index_unique(p@, '/', i as int);
            }
            if i == 0 {
                let mut r = Vec::new();
                r.push('/');
                assert(r@ =~= root());
                Some(r)
            } else {
                let mut r = Vec::new();
                let mut k: usize = 0;
                while k < i
                    invariant
                        k <= i < p@.len(),
                        r@ == p@.take(k as int),
                    decreases i - k,
                {
                    r.push(p[k]);
                    k = k + 1;
                    assert(r@ =~= p@.take(k as int));
                }
                Some(r)
            }
        },
    }
}

/// `dir.join(name)`.
pub fn join_name(dir: &[char], name: &[char]) -> (r: Vec<char>)
    ensures
        r@ == join(dir@, name@),
{
    let mut r: Vec<char> = Vec::new();
    let mut k: usize = 0;
    while k < dir.len()
        invariant
            k <= dir@.len(),
            r@ == dir@.take(k as int),
        decreases dir@.len() - k,
    {
        r.push(dir[k]);
        k = k + 1;
        assert(r@ =~= dir@.take(k as int));
    }
    assert(dir@.take(dir@.len() as int) =~= dir@);
    if dir.len() > 0 && dir[dir.len() - 1] != '/' {
        r.push('/');
    }
    let ghost base = r@;
    let mut j: usize = 0;
    while j < name.len()
        invariant
            j <= name@.len(),
            r@ == base + name@.take(j as int),
        decreases name@.len() - j,
    {
        r.push(name[j]);
        j = j + 1;
        assert(r@ =~= base + name@.take(j as int));
    }
    assert(name@.take(name@.len() as int) =~= name@);
    proof {
        if dir@.len() == 0 {
            assert(r@ =~= name@);
        } else if dir@.last() != '/' {
            assert(base =~= dir@ + seq!['/']);
        } else {
            assert(base =~= dir@);
        }
    }
    r
}

/// Whether `p` names a file called `name` (its last component is `name`).
pub open spec fn has_file_name(p: Seq<char>, name: Seq<char>) -> bool {
    p == name || (seq_ends_with(p, name) && p.len() > name.len() && p[p.len() - name.len() - 1]
        == '/')
}

pub fn file_name_is(p: &[char], name: &[char]) -> (b: bool)
    ensures
        b == has_file_name(p@, name@),
{
    if !ends_with(p, name) {
        proof {
            if p@ == name@ {
                assert(p@.skip(0) =~= p@);
            }
        }
        return false;
    }
    if p.len() == name.len() {
        assert(p@.skip(0) =~= p@);
        return true;
    }
    proof {
        if p@ == name@ {
            assert(p@.len() == name@.len());
        }
    }
    p[p.len() - name.len() - 1] == '/'
}

/// Whether `p` is `conftest.py` or ends in `/conftest.py`.
pub fn is_conftest_path(p: &[char]) -> (b: bool)
    ensures
        b == has_file_name(p@, conftest_name()),
{
    proof {
        reveal_strlit("conftest.py");
    }
    let name = chars_of("conftest.py");
    file_name_is(p, &name)
}

/// `Path::starts_with` on normalized paths: `base` is `p` or one of its
/// ancestor directories.
pub open spec fn path_starts_with(p: Seq<char>, base: Seq<char>) -> bool {
    p == base || (base.len() < p.len() && p.take(base.len() as int) == base && (base.len() == 0
        || base.last() == '/' || p[base.len() as int] == '/'))
}

pub fn path_starts_with_exec(p: &[char], base: &[char]) -> (b: bool)
    ensures
        b == path_starts_with(p@, base@),
{
    if crate::text::chars_eq(p, base) {
        return true;
    }
    if base.len() >= p.len() {
        return false;
    }
    if !crate::text::starts_with(p, base) {
        return false;
    }
    base.len() == 0 || base[base.len() - 1] == '/' || p[base.len()] == '/'
}

/// Number of components of a normalized path: the root (if absolute) and every
/// non-empty segment between `/`.
pub open spec fn component_count(p: Seq<char>) -> nat
    decreases p.len(),
{
    if p.len() == 0 {
        0
    } else {
        component_count(p.drop_last()) + if p.last() != '/' && (p.len() == 1 || p[p.len() - 2]
            == '/') {
            1nat
        } else if p.len() == 1 && p[0] == '/' {
            1nat
        } else {
            0nat
        }
    }
}

pub fn count_components(p: &[char]) -> (n: usize)
    ensures
        n as nat == component_count(p@),
{
    let mut n: usize = 0;
    let mut i: usize = 0;
    while i < p.len()
        invariant
            i <= p@.len(),
            n as nat == component_count(p@.take(i as int)),
            n <= i,
        decreases p@.len() - i,
    {
        let ghost t = p@.take(i + 1);
        assert(t.drop_last() =~= p@.take(i as int));
        assert(t.last() == p@[i as int]);
        if p[i] != '/' && (i == 0 || p[i - 1] == '/') {
            n = n + 1;
        } else if i == 0 && p[0] == '/' {
            n = n + 1;
        }
        i = i + 1;
    }
    assert(p@.take(p@.len() as int) =~= p@);
    n
}

// ---------------------------------------------------------------------------
// The order of paths

/// Encodings of path components whose string order is the order of
/// `std::path::Component`: root, then `.`, then `..`, then named components
/// in the order of their names. An empty encoding marks the end of a path.
pub open spec fn root_part() -> Seq<char> {
    seq!['\0']
}

pub open spec fn cur_part() -> Seq<char> {
    seq!['\0', '\0']
}

pub open spec fn parent_part() -> Seq<char> {
    seq!['\0', '\0', '\0']
}

pub open spec fn normal_part(s: Seq<char>) -> Seq<char> {
    seq!['\u{1}'] + s
}

/// The components that a piece of a path between slashes contributes; `first`
/// when it opens the path. Empty pieces and `.` pieces are skipped, but for a
/// leading `.` of a relative path.
pub open spec fn segment_parts(seg: Seq<char>, first: bool) -> Seq<Seq<char>> {
    if seg.len() == 0 {
        Seq::empty()
    } else if seg == seq!['.'] {
        if first {
            seq![cur_part()]
        } else {
            Seq::empty()
        }
    } else if seg == seq!['.', '.'] {
        seq![parent_part()]
    } else {
        seq![normal_part(seg)]
    }
}

pub open spec fn segments_parts(segs: Seq<Seq<char>>) -> Seq<Seq<char>>
    decreases segs.len(),
{
    if segs.len() == 0 {
        Seq::empty()
    } else {
        segments_parts(segs.drop_last()) + segment_parts(segs.last(), segs.len() == 1)
    }
}

/// The components of `p`, as `std::path::Path::components` reads them on
/// Unix, encoded so that `key_lt` on them is `Path::cmp`.
pub open spec fn path_key(p: Seq<char>) -> Seq<Seq<char>> {
    (if p.len() > 0 && p[0] == '/' {
        seq![root_part()]
    } else {
        Seq::empty()
    }) + segments_parts(split_on(p, '/'))
}

fn is_dot(seg: &Vec<char>) -> (r: bool)
    ensures
        r == (seg@ == seq!['.']),
{
    if seg.len() == 1 && seg[0] == '.' {
        assert(seg@ =~= seq!['.']);
        true
    } else {
        false
    }
}

fn is_dot_dot(seg: &Vec<char>) -> (r: bool)
    ensures
        r == (seg@ == seq!['.', '.']),
{
    if seg.len() == 2 && seg[0] == '.' && seg[1] == '.' {
        assert(seg@ =~= seq!['.', '.']);
        true
    } else {
        false
    }
}

/// The encoded components of `p`.
pub fn path_key_of(p: &[char]) -> (r: Vec<Vec<char>>)
    ensures
        views(r@) == path_key(p@),
{
    let mut r: Vec<Vec<char>> = Vec::new();
    if p.len() > 0 && p[0] == '/' {
        let rp = vec!['\0'];
        assert(rp@ =~= root_part());
        r.push(rp);
        assert(views(r@) =~= seq![root_part()]);
    } else {
        assert(views(r@) =~= Seq::<Seq<char>>::empty());
    }
    let ghost head = views(r@);
    let segs = split_chars(p, '/');
    let ghost sv = split_on(p@, '/');
    let mut i: usize = 0;
    while i < segs.len()
        invariant
            i <= segs@.len(),
            views(segs@) == sv,
            views(r@) == head + segments_parts(sv.take(i as int)),
        decreases segs@.len() - i,
    {
        let seg = &segs[i];
        assert(sv[i as int] == seg@);
        assert(sv.take(i + 1).drop_last() =~= sv.take(i as int));
        assert(sv.take(i + 1).last() == seg@);
        let ghost before = views(r@);
        if seg.len() == 0 {
            assert(segment_parts(seg@, i == 0) =~= Seq::<Seq<char>>::empty());
        } else if is_dot(seg) {
            if i == 0 {
                let cp = vec!['\0', '\0'];
                assert(cp@ =~= cur_part());
                r.push(cp);
                assert(views(r@) =~= before.push(cur_part()));
            }
        } else if is_dot_dot(seg) {
            let pp = vec!['\0', '\0', '\0'];
            assert(pp@ =~= parent_part());
            r.push(pp);
            assert(views(r@) =~= before.push(parent_part()));
        } else {
            let mut part: Vec<char> = vec!['\u{1}'];
            let mut k: usize = 0;
            while k < seg.len()
                invariant
                    k <= seg@.len(),
                    part@ == seq!['\u{1}'] + seg@.take(k as int),
                decreases seg@.len() - k,
            {
                part.push(seg[k]);
                assert(seg@.take(k + 1) =~= seg@.take(k as int).push(seg@[k as int]));
                k = k + 1;
            }
            assert(seg@.take(seg@.len() as int) =~= seg@);
            r.push(part);
            assert(views(r@) =~= before.push(normal_part(seg@)));
        }
        assert(views(r@) =~= head + segments_parts(sv.take(i + 1)));
        i = i + 1;
    }
    assert(sv.take(sv.len() as int) =~= sv);
    r
}

} // verus!
