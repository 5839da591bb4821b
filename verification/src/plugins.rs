//! Plugins and installed packages: directories the workspace scan skips,
//! `[pytest11]` entry points, `.dist-info` names, editable installs and their
//! `.pth` files.
use vstd::prelude::*;

use crate::db::FixtureDatabase;
use crate::text::{ascii_digit, lowercase, to_lowercase};
use crate::text::{
    char_index, find_char_from, has_char, seq_contains_seq, seq_has_char, split_chars, split_on,
    strip_prefix, lemma_char_index_none, lemma_char_index_of_first, lines, lines_of,
    before_char, chars_eq, chars_of, ends_with, seq_ends_with, seq_starts_with, slice_range,
    starts_with, string_of, trim, trim_chars, views,
};

verus! {

/// Directory names the workspace scan never enters.
pub open spec fn skip_dir_names() -> Seq<Seq<char>> {
    seq![
        ".git"@,
        ".hg"@,
        ".svn"@,
        ".venv"@,
        "venv"@,
        "env"@,
        ".env"@,
        "__pycache__"@,
        ".pytest_cache"@,
        ".mypy_cache"@,
        ".ruff_cache"@,
        ".tox"@,
        ".nox"@,
        "build"@,
        "dist"@,
        ".eggs"@,
        "node_modules"@,
        "bower_components"@,
        "target"@,
        ".idea"@,
        ".vscode"@,
        ".cache"@,
        ".local"@,
        "vendor"@,
        "site-packages"@
    ]
}

fn skip_table() -> (v: Vec<&'static str>)
    ensures
        v@.map_values(|s: &str| s@) == skip_dir_names(),
{
    let v: Vec<&'static str> = vec![
        ".git",
        ".hg",
        ".svn",
        ".venv",
        "venv",
        "env",
        ".env",
        "__pycache__",
        ".pytest_cache",
        ".mypy_cache",
        ".ruff_cache",
        ".tox",
        ".nox",
        "build",
        "dist",
        ".eggs",
        "node_modules",
        "bower_components",
        "target",
        ".idea",
        ".vscode",
        ".cache",
        ".local",
        "vendor",
        "site-packages"
    ];
    assert(v@.map_values(|s: &str| s@) =~= skip_dir_names());
    v
}

/// Whether the workspace scan skips a directory called `dir_name`: version
/// control, virtual environments, caches, build output, editor directories,
/// and `*.egg-info`.
pub open spec fn skips_directory(dir_name: Seq<char>) -> bool {
    skip_dir_names().contains(dir_name) || seq_ends_with(dir_name, ".egg-info"@)
}

fn skip_directory(dir_name: &str) -> (b: bool)
    ensures
        b == skips_directory(dir_name@),
{
    proof {
        reveal_strlit(".egg-info");
    }
    let d = chars_of(dir_name);
    let table = skip_table();
    let ghost names = skip_dir_names();
    let mut i: usize = 0;
    while i < table.len()
        invariant
            i <= table@.len(),
            table@.map_values(|s: &str| s@) == names,
            names == skip_dir_names(),
            d@ == dir_name@,
            forall|k: int| 0 <= k < i ==> names[k] != d@,
        decreases table@.len() - i,
    {
        let t = chars_of(table[i]);
        assert(names[i as int] == table@[i as int]@);
        if chars_eq(&t, &d) {
            assert(names.contains(d@));
            return true;
        }
        i = i + 1;
    }
    ends_with(&d, &chars_of(".egg-info"))
}

/// A `[pytest11]` entry point: the plugin name and the module it names.
#[derive(Debug)]
pub struct Pytest11EntryPoint {
    pub name: String,
    pub module: String,
}

pub open spec fn entry_views(v: Seq<Pytest11EntryPoint>) -> Seq<(Seq<char>, Seq<char>)> {
    v.map_values(|e: Pytest11EntryPoint| (e.name@, e.module@))
}

/// One line of `entry_points.txt`: a `[section]` header says whether the
/// `[pytest11]` section starts; inside it, a non-blank, non-comment line
/// `name = module` adds an entry (split at the first `=`, both sides trimmed).
pub open spec fn entry_step(st: (Seq<(Seq<char>, Seq<char>)>, bool), raw: Seq<char>) -> (
    Seq<(Seq<char>, Seq<char>)>,
    bool,
) {
    let line = trim(raw);
    if seq_starts_with(line, "["@) && seq_ends_with(line, "]"@) {
        (st.0, line == "[pytest11]"@)
    } else if st.1 && line.len() > 0 && !seq_starts_with(line, "#"@) {
        let i = char_index(line, '=');
        if i >= 0 {
            (st.0.push((trim(line.take(i)), trim(line.skip(i + 1)))), st.1)
        } else {
            st
        }
    } else {
        st
    }
}

pub open spec fn entry_scan(lines: Seq<Seq<char>>, n: int) -> (Seq<(Seq<char>, Seq<char>)>, bool)
    decreases n,
{
    if n <= 0 {
        (Seq::empty(), false)
    } else {
        entry_step(entry_scan(lines, n - 1), lines[n - 1])
    }
}

/// The `[pytest11]` entries of an `entry_points.txt`.
pub open spec fn pytest11_entries(content: Seq<char>) -> Seq<(Seq<char>, Seq<char>)> {
    let ls = lines_of(content);
    entry_scan(ls, ls.len() as int).0
}

impl FixtureDatabase {
    /// Parses `entry_points.txt` content: the entries of its `[pytest11]`
    /// section (malformed lines ignored).
    pub fn parse_pytest11_entry_points(content: &str) -> (r: Vec<Pytest11EntryPoint>)
        ensures
            entry_views(r@) == pytest11_entries(content@),
    {
        proof {
            reveal_strlit("[");
            reveal_strlit("]");
            reveal_strlit("[pytest11]");
            reveal_strlit("#");
        }
        let v = chars_of(content);
        let ls = lines(&v);
        let ghost lv = views(ls@);
        let open_b = chars_of("[");
        let close_b = chars_of("]");
        let header = chars_of("[pytest11]");
        let hash = chars_of("#");
        let mut results: Vec<Pytest11EntryPoint> = Vec::new();
        let mut in_section = false;
        let mut i: usize = 0;
        while i < ls.len()
            invariant
                i <= ls@.len(),
                lv == views(ls@),
                lv == lines_of(content@),
                open_b@ == "["@,
                close_b@ == "]"@,
                header@ == "[pytest11]"@,
                hash@ == "#"@,
                (entry_views(results@), in_section) == entry_scan(lv, i as int),
            decreases ls@.len() - i,
        {
            assert(lv[i as int] == ls@[i as int]@);
            let line = trim_chars(&ls[i]);
            if starts_with(&line, &open_b) && ends_with(&line, &close_b) {
                in_section = chars_eq(&line, &header);
            } else if in_section && line.len() > 0 && !starts_with(&line, &hash) {
                match find_char_from(&line, '=', 0) {
                    Some(k) => {
                        proof {
                            lemma_char_index_of_first(line@, '=', k as int);
                        }
                        let a = slice_range(&line, 0, k);
                        let b = slice_range(&line, k + 1, line.len());
                        assert(a@ =~= line@.take(k as int));
                        assert(b@ =~= line@.skip(k + 1));
                        let name = trim_chars(&a);
                        let module = trim_chars(&b);
                        let ghost before = entry_views(results@);
                        results.push(Pytest11EntryPoint { name: string_of(&name), module: string_of(&module) });
                        assert(entry_views(results@) =~= before.push((name@, module@)));
                    },
                    None => {
                        proof {
                            lemma_char_index_none(line@, '=');
                        }
                    },
                }
            }
            i = i + 1;
        }
        results
    }

    /// Whether the workspace scan skips a directory called `dir_name`.
    pub fn should_skip_directory(dir_name: &str) -> (b: bool)
        ensures
            b == skips_directory(dir_name@),
    {
        skip_directory(dir_name)
    }
}

/// `str::strip_suffix`.
pub open spec fn strip_suffix(s: Seq<char>, p: Seq<char>) -> Option<Seq<char>> {
    if seq_ends_with(s, p) {
        Some(s.take(s.len() - p.len()))
    } else {
        None
    }
}

/// Whether a version starts at index `c` of `s`: a `-` followed by an ASCII digit.
pub open spec fn version_dash(s: Seq<char>, c: int) -> bool {
    0 <= c && c + 1 < s.len() && s[c] == '-' && ascii_digit(s[c + 1])
}

/// The first index from `c` on where a version starts, if any.
pub open spec fn first_version_dash(s: Seq<char>, c: int) -> Option<int>
    decreases s.len() - c,
{
    if c < 0 || c >= s.len() {
        None
    } else if version_dash(s, c) {
        Some(c)
    } else {
        first_version_dash(s, c + 1)
    }
}

/// `name-version` without `.dist-info` or `.egg-info`.
pub open spec fn dist_stem(dir_name: Seq<char>) -> Option<Seq<char>> {
    match strip_suffix(dir_name, ".dist-info"@) {
        Some(s) => Some(s),
        None => strip_suffix(dir_name, ".egg-info"@),
    }
}

/// Where the name part of a `name-version` stem ends: at the first dash
/// followed by a digit, else at the end.
pub open spec fn name_end(stem: Seq<char>) -> Option<int> {
    match first_version_dash(stem, 0) {
        Some(c) => Some(c),
        None => Some(stem.len() as int),
    }
}

/// The package name `n` with `-` and `.` turned into `_`.
pub open spec fn underscored(n: Seq<char>) -> Seq<char> {
    n.map_values(|c: char| if c == '-' || c == '.' {
        '_'
    } else {
        c
    })
}

/// The raw and normalized (PEP 503) package name of a `.dist-info` or
/// `.egg-info` directory name.
pub open spec fn dist_package_name(dir_name: Seq<char>) -> Option<(Seq<char>, Seq<char>)> {
    match dist_stem(dir_name) {
        None => None,
        Some(stem) => match name_end(stem) {
            Some(k) => Some((stem.take(k), lowercase(underscored(stem.take(k))))),
            None => None,
        },
    }
}

fn strip_suffix_chars(v: &[char], p: &[char]) -> (r: Option<Vec<char>>)
    ensures
        match r {
            Some(t) => strip_suffix(v@, p@) == Some(t@),
            None => strip_suffix(v@, p@) is None,
        },
{
    if ends_with(v, p) {
        let t = slice_range(v, 0, v.len() - p.len());
        assert(t@ =~= v@.take(v@.len() - p@.len()));
        Some(t)
    } else {
        None
    }
}

impl FixtureDatabase {
    /// The raw and normalized package names of a `.dist-info` (or
    /// `.egg-info`) directory name: `my-package-1.0.0.dist-info` gives
    /// `("my-package", "my_package")`.
    pub fn extract_package_name_from_dist_info(dir_name: &str) -> (r: Option<(String, String)>)
        ensures
            match r {
                Some((raw, norm)) => dist_package_name(dir_name@) == Some((raw@, norm@)),
                None => dist_package_name(dir_name@) is None,
            },
    {
        proof {
            reveal_strlit(".dist-info");
            reveal_strlit(".egg-info");
        }
        let d = chars_of(dir_name);
        let stem = match strip_suffix_chars(&d, &chars_of(".dist-info")) {
            Some(s) => s,
            None => match strip_suffix_chars(&d, &chars_of(".egg-info")) {
                Some(s) => s,
                None => {
                    return None;
                },
            },
        };
        let mut c: usize = 0;
        let mut found: Option<usize> = None;
        while c < stem.len()
            invariant_except_break
                found is None,
            invariant
                c <= stem@.len(),
                first_version_dash(stem@, 0) == first_version_dash(stem@, c as int),
            ensures
                match found {
                    Some(x) => first_version_dash(stem@, 0) == Some(x as int) && x < stem@.len(),
                    None => first_version_dash(stem@, 0) is None,
                },
            decreases stem@.len() - c,
        {
            if stem[c] == '-' && c + 1 < stem.len() && crate::text::is_ascii_digit(stem[c + 1]) {
                found = Some(c);
                break;
            }
            c = c + 1;
        }
        let k = match found {
            Some(x) => x,
            None => stem.len(),
        };
        let raw = slice_range(&stem, 0, k);
        assert(raw@ =~= stem@.take(k as int));
        let mut under: Vec<char> = Vec::new();
        let mut i: usize = 0;
        while i < raw.len()
            invariant
                i <= raw@.len(),
                under@ == underscored(raw@.take(i as int)),
            decreases raw@.len() - i,
        {
            let ch = raw[i];
            if ch == '-' || ch == '.' {
                under.push('_');
            } else {
                under.push(ch);
            }
            assert(under@ =~= underscored(raw@.take(i + 1)));
            i = i + 1;
        }
        assert(raw@.take(raw@.len() as int) =~= raw@);
        let raw_s = string_of(&raw);
        let under_s = string_of(&under);
        let norm = to_lowercase(under_s.as_str());
        Some((raw_s, norm))
    }
}


/// The module path of an entry point without its `:attr` suffix, split at
/// dots; `None` when a part is empty or holds `..` or a NUL (path traversal).
pub open spec fn module_parts(module: Seq<char>) -> Option<Seq<Seq<char>>> {
    let parts = split_on(before_char(module, ':'), '.');
    if exists|k: int|
        0 <= k < parts.len() && (seq_contains_seq(#[trigger] parts[k], ".."@) || seq_has_char(
            parts[k],
            '\0',
        ) || parts[k].len() == 0) {
        None
    } else {
        Some(parts)
    }
}

/// The path components (under site-packages) of an entry point's module,
/// if the module path is safe to resolve.
pub fn entry_point_module_parts(module: &str) -> (r: Option<Vec<String>>)
    ensures
        match r {
            Some(ps) => module_parts(module@) == Some(crate::types::string_views(ps@)),
            None => module_parts(module@) is None,
        },
{
    proof {
        reveal_strlit("..");
    }
    let m = chars_of(module);
    let head = crate::text::before_char_chars(&m, ':');
    let parts = split_chars(&head, '.');
    let dots = chars_of("..");
    let mut out: Vec<String> = Vec::new();
    let mut k: usize = 0;
    while k < parts.len()
        invariant
            k <= parts@.len(),
            dots@ == ".."@,
            views(parts@) == split_on(before_char(module@, ':'), '.'),
            out@.len() == k,
            forall|q: int| 0 <= q < k ==> (#[trigger] out@[q])@ == parts@[q]@,
            forall|q: int|
                0 <= q < k ==> !(seq_contains_seq(#[trigger] views(parts@)[q], ".."@) || seq_has_char(
                    views(parts@)[q],
                    '\0',
                ) || views(parts@)[q].len() == 0),
        decreases parts@.len() - k,
    {
        let p = &parts[k];
        assert(views(parts@)[k as int] == p@);
        if crate::text::contains(p, &dots) || has_char(p, '\0') || p.len() == 0 {
            return None;
        }
        out.push(string_of(p));
        k = k + 1;
    }
    assert(crate::types::string_views(out@) =~= views(parts@));
    Some(out)
}

/// The `.pth` stems under which an editable install of a package may point to
/// its source: `__editable__.<name>`, `_<name>` and `<name>`, for the
/// normalized name and, when it differs, for the raw one.
pub open spec fn pth_candidates(raw: Seq<char>, normalized: Seq<char>) -> Seq<Seq<char>> {
    let base = seq!["__editable__."@ + normalized, "_"@ + normalized, normalized];
    if raw != normalized {
        base + seq!["__editable__."@ + raw, "_"@ + raw, raw]
    } else {
        base
    }
}

/// Whether `.pth` stem `stem` belongs to candidate `c`: it is `c`, or `c`
/// followed by `-` and a version.
pub open spec fn stem_matches(stem: Seq<char>, c: Seq<char>) -> bool {
    stem == c || match strip_prefix(stem, c) {
        Some(rest) => rest.len() > 1 && rest[0] == '-' && ascii_digit(rest[1]),
        None => false,
    }
}

pub fn editable_pth_candidates(raw: &str, normalized: &str) -> (r: Vec<String>)
    ensures
        crate::types::string_views(r@) == pth_candidates(raw@, normalized@),
{
    proof {
        reveal_strlit("__editable__.");
        reveal_strlit("_");
    }
    let rv = chars_of(raw);
    let nv = chars_of(normalized);
    let mut r: Vec<String> = Vec::new();
    r.push(string_of(&crate::text::concat(&chars_of("__editable__."), &nv)));
    r.push(string_of(&crate::text::concat(&chars_of("_"), &nv)));
    r.push(string_of(&nv));
    if !chars_eq(&rv, &nv) {
        r.push(string_of(&crate::text::concat(&chars_of("__editable__."), &rv)));
        r.push(string_of(&crate::text::concat(&chars_of("_"), &rv)));
        r.push(string_of(&rv));
    }
    assert(crate::types::string_views(r@) =~= pth_candidates(raw@, normalized@));
    r
}

/// Whether a `.pth` file stem matches one of the candidates.
pub fn pth_stem_matches(stem: &str, candidates: &[String]) -> (b: bool)
    ensures
        b == exists|k: int| 0 <= k < candidates@.len() && stem_matches(stem@, #[trigger] candidates@[k]@),
{
    let sv = chars_of(stem);
    let mut k: usize = 0;
    while k < candidates.len()
        invariant
            k <= candidates@.len(),
            sv@ == stem@,
            forall|q: int| 0 <= q < k ==> !stem_matches(stem@, #[trigger] candidates@[q]@),
        decreases candidates@.len() - k,
    {
        let c = chars_of(candidates[k].as_str());
        let hit = if chars_eq(&sv, &c) {
            true
        } else {
            match crate::text::strip_prefix_chars(&sv, &c) {
                Some(rest) => rest.len() > 1 && rest[0] == '-' && crate::text::is_ascii_digit(rest[1]),
                None => false,
            }
        };
        if hit {
            assert(stem_matches(stem@, candidates@[k as int]@));
            return true;
        }
        k = k + 1;
    }
    false
}

/// A control character other than tab.
pub open spec fn control_char(c: char) -> bool {
    (c as u32) < 0x20 && c != '\t'
}

/// Whether a trimmed `.pth` line may name a source directory: not blank, not
/// a comment or an `import` line, and free of NUL, control characters and `..`.
pub open spec fn pth_path_line(t: Seq<char>) -> bool {
    &&& t.len() > 0
    &&& !seq_starts_with(t, "#"@)
    &&& !seq_starts_with(t, "import "@)
    &&& !seq_has_char(t, '\0')
    &&& !(exists|k: int| 0 <= k < t.len() && control_char(#[trigger] t[k]))
    &&& !seq_contains_seq(t, ".."@)
}

/// The candidate source paths of a `.pth` file, in order (trimmed lines).
pub open spec fn pth_paths(lines: Seq<Seq<char>>) -> Seq<Seq<char>>
    decreases lines.len(),
{
    if lines.len() == 0 {
        Seq::empty()
    } else {
        let r = pth_paths(lines.drop_last());
        let t = trim(lines.last());
        if pth_path_line(t) {
            r.push(t)
        } else {
            r
        }
    }
}

fn has_control_char(t: &[char]) -> (b: bool)
    ensures
        b == exists|k: int| 0 <= k < t@.len() && control_char(#[trigger] t@[k]),
{
    let mut k: usize = 0;
    while k < t.len()
        invariant
            k <= t@.len(),
            forall|q: int| 0 <= q < k ==> !control_char(#[trigger] t@[q]),
        decreases t@.len() - k,
    {
        if (t[k] as u32) < 0x20 && t[k] != '\t' {
            assert(control_char(t@[k as int]));
            return true;
        }
        k = k + 1;
    }
    false
}

/// The lines of a `.pth` file that may name the source directory of an
/// editable install, trimmed, in order.
pub fn pth_source_candidates(content: &str) -> (r: Vec<String>)
    ensures
        crate::types::string_views(r@) == pth_paths(lines_of(content@)),
{
    proof {
        reveal_strlit("#");
        reveal_strlit("import ");
        reveal_strlit("..");
    }
    let v = chars_of(content);
    let ls = lines(&v);
    let ghost lv = views(ls@);
    let hash = chars_of("#");
    let imp = chars_of("import ");
    let dots = chars_of("..");
    let mut r: Vec<String> = Vec::new();
    let mut i: usize = 0;
    while i < ls.len()
        invariant
            i <= ls@.len(),
            lv == views(ls@),
            lv == lines_of(content@),
            hash@ == "#"@,
            imp@ == "import "@,
            dots@ == ".."@,
            crate::types::string_views(r@) == pth_paths(lv.take(i as int)),
        decreases ls@.len() - i,
    {
        assert(lv.take(i + 1).drop_last() =~= lv.take(i as int));
        assert(lv.take(i + 1).last() == ls@[i as int]@);
        let t = trim_chars(&ls[i]);
        let ok = t.len() > 0 && !starts_with(&t, &hash) && !starts_with(&t, &imp) && !has_char(&t, '\0')
            && !has_control_char(&t) && !crate::text::contains(&t, &dots);
        if ok {
            let ghost before = crate::types::string_views(r@);
            r.push(string_of(&t));
            assert(crate::types::string_views(r@) =~= before.push(t@));
        }
        i = i + 1;
    }
    assert(lv.take(lv.len() as int) =~= lv);
    r
}

/// Whether the JSON text `content` holds `dir_info.editable` as a boolean,
/// and which: what `serde_json` reads there.
pub uninterp spec fn json_dir_info_editable(content: Seq<char>) -> Option<bool>;

/// `serde_json::from_str::<serde_json::Value>` on `content`, then
/// `Value::get("dir_info")`, `Value::get("editable")` and `Value::as_bool`:
/// `None` when the text does not parse or the field is missing or not a
/// boolean. The result is named by `json_dir_info_editable`; nothing more is
/// claimed of it.
#[verifier::external_body]
fn dir_info_editable(content: &str) -> (r: Option<bool>)
    ensures
        r == json_dir_info_editable(content@),
{
    let value: serde_json::Value = serde_json::from_str(content).ok()?;
    value.get("dir_info")?.get("editable")?.as_bool()
}

/// The package names of an editable install: `filename` must be a
/// `.dist-info` directory whose `direct_url.json` (with content
/// `direct_url`) marks it editable.
pub open spec fn editable_names(filename: Seq<char>, direct_url: Seq<char>) -> Option<(Seq<char>, Seq<char>)> {
    if !seq_ends_with(filename, ".dist-info"@) {
        None
    } else if !(json_dir_info_editable(direct_url) == Some(true)) {
        None
    } else {
        dist_package_name(filename)
    }
}

/// The raw and normalized package names of an editable install, read from a
/// `.dist-info` directory name and its `direct_url.json`.
pub fn editable_install_names(filename: &str, direct_url: &str) -> (r: Option<(String, String)>)
    ensures
        match r {
            Some((raw, norm)) => editable_names(filename@, direct_url@) == Some((raw@, norm@)),
            None => editable_names(filename@, direct_url@) is None,
        },
{
    proof {
        reveal_strlit(".dist-info");
    }
    let f = chars_of(filename);
    if !ends_with(&f, &chars_of(".dist-info")) {
        return None;
    }
    let editable = match dir_info_editable(direct_url) {
        Some(b) => b,
        None => false,
    };
    if !editable {
        return None;
    }
    FixtureDatabase::extract_package_name_from_dist_info(filename)
}

} // verus!
