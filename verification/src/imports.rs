//! Import statements of a Python file: which top-level modules they name,
//! whether those belong to the standard library, and how the import block at
//! the top of a file is laid out in isort groups.
use vstd::prelude::*;

use crate::types::{string_views, TypeImportSpec};
use crate::order::{chars_lt, seq_lt, str_lt};
use crate::resolver::contains_path;
use crate::text::{
    before_seq, before_seq_chars, lowercase, to_lowercase, concat, find_first, find_spec, slice_range, trim_end, trim_end_chars,
    before_char, before_char_chars, chars_eq, chars_of, first_token, first_token_chars,
    has_char, seq_has_char, seq_starts_with, split_chars, split_on, starts_with, string_of, strip_prefix, strip_prefix_chars, trim, trim_chars, views,
};

verus! {

/// The top-level modules of Python's standard library.
pub open spec fn stdlib_names() -> Seq<Seq<char>> {
    seq![
        "__future__"@,
        "abc"@,
        "aifc"@,
        "antigravity"@,
        "argparse"@,
        "array"@,
        "ast"@,
        "asynchat"@,
        "asyncio"@,
        "asyncore"@,
        "atexit"@,
        "audioop"@,
        "base64"@,
        "bdb"@,
        "binascii"@,
        "bisect"@,
        "builtins"@,
        "bz2"@,
        "cProfile"@,
        "calendar"@,
        "cgi"@,
        "cgitb"@,
        "chunk"@,
        "cmath"@,
        "cmd"@,
        "code"@,
        "codecs"@,
        "codeop"@,
        "collections"@,
        "colorsys"@,
        "compileall"@,
        "concurrent"@,
        "configparser"@,
        "contextlib"@,
        "contextvars"@,
        "copy"@,
        "copyreg"@,
        "crypt"@,
        "csv"@,
        "ctypes"@,
        "curses"@,
        "dataclasses"@,
        "datetime"@,
        "dbm"@,
        "decimal"@,
        "difflib"@,
        "dis"@,
        "distutils"@,
        "doctest"@,
        "email"@,
        "encodings"@,
        "ensurepip"@,
        "enum"@,
        "errno"@,
        "faulthandler"@,
        "fcntl"@,
        "filecmp"@,
        "fileinput"@,
        "fnmatch"@,
        "fractions"@,
        "ftplib"@,
        "functools"@,
        "gc"@,
        "genericpath"@,
        "getopt"@,
        "getpass"@,
        "gettext"@,
        "glob"@,
        "graphlib"@,
        "grp"@,
        "gzip"@,
        "hashlib"@,
        "heapq"@,
        "hmac"@,
        "html"@,
        "http"@,
        "idlelib"@,
        "imaplib"@,
        "imghdr"@,
        "imp"@,
        "importlib"@,
        "inspect"@,
        "io"@,
        "ipaddress"@,
        "itertools"@,
        "json"@,
        "keyword"@,
        "lib2to3"@,
        "linecache"@,
        "locale"@,
        "logging"@,
        "lzma"@,
        "mailbox"@,
        "mailcap"@,
        "marshal"@,
        "math"@,
        "mimetypes"@,
        "mmap"@,
        "modulefinder"@,
        "msilib"@,
        "msvcrt"@,
        "multiprocessing"@,
        "netrc"@,
        "nis"@,
        "nntplib"@,
        "ntpath"@,
        "nturl2path"@,
        "numbers"@,
        "opcode"@,
        "operator"@,
        "optparse"@,
        "os"@,
        "ossaudiodev"@,
        "pathlib"@,
        "pdb"@,
        "pickle"@,
        "pickletools"@,
        "pipes"@,
        "pkgutil"@,
        "platform"@,
        "plistlib"@,
        "poplib"@,
        "posix"@,
        "posixpath"@,
        "pprint"@,
        "profile"@,
        "pstats"@,
        "pty"@,
        "pwd"@,
        "py_compile"@,
        "pyclbr"@,
        "pydoc"@,
        "pydoc_data"@,
        "pyexpat"@,
        "queue"@,
        "quopri"@,
        "random"@,
        "re"@,
        "readline"@,
        "reprlib"@,
        "resource"@,
        "rlcompleter"@,
        "runpy"@,
        "sched"@,
        "secrets"@,
        "select"@,
        "selectors"@,
        "shelve"@,
        "shlex"@,
        "shutil"@,
        "signal"@,
        "site"@,
        "smtpd"@,
        "smtplib"@,
        "sndhdr"@,
        "socket"@,
        "socketserver"@,
        "spwd"@,
        "sqlite3"@,
        "sre_compile"@,
        "sre_constants"@,
        "sre_parse"@,
        "ssl"@,
        "stat"@,
        "statistics"@,
        "string"@,
        "stringprep"@,
        "struct"@,
        "subprocess"@,
        "sunau"@,
        "symtable"@,
        "sys"@,
        "sysconfig"@,
        "syslog"@,
        "tabnanny"@,
        "tarfile"@,
        "telnetlib"@,
        "tempfile"@,
        "termios"@,
        "textwrap"@,
        "this"@,
        "threading"@,
        "time"@,
        "timeit"@,
        "tkinter"@,
        "token"@,
        "tokenize"@,
        "tomllib"@,
        "trace"@,
        "traceback"@,
        "tracemalloc"@,
        "tty"@,
        "turtle"@,
        "turtledemo"@,
        "types"@,
        "typing"@,
        "unicodedata"@,
        "unittest"@,
        "urllib"@,
        "uu"@,
        "uuid"@,
        "venv"@,
        "warnings"@,
        "wave"@,
        "weakref"@,
        "webbrowser"@,
        "winreg"@,
        "winsound"@,
        "wsgiref"@,
        "xdrlib"@,
        "xml"@,
        "xmlrpc"@,
        "zipapp"@,
        "zipfile"@,
        "zipimport"@,
        "zlib"@,
        "zoneinfo"@
    ]
}

/// Whether `m` is a top-level module of the standard library.
pub open spec fn stdlib_module(m: Seq<char>) -> bool {
    stdlib_names().contains(m)
}

fn stdlib_table() -> (v: Vec<&'static str>)
    ensures
        v@.map_values(|s: &str| s@) == stdlib_names(),
{
    let v: Vec<&'static str> = vec![
        "__future__",
        "abc",
        "aifc",
        "antigravity",
        "argparse",
        "array",
        "ast",
        "asynchat",
        "asyncio",
        "asyncore",
        "atexit",
        "audioop",
        "base64",
        "bdb",
        "binascii",
        "bisect",
        "builtins",
        "bz2",
        "cProfile",
        "calendar",
        "cgi",
        "cgitb",
        "chunk",
        "cmath",
        "cmd",
        "code",
        "codecs",
        "codeop",
        "collections",
        "colorsys",
        "compileall",
        "concurrent",
        "configparser",
        "contextlib",
        "contextvars",
        "copy",
        "copyreg",
        "crypt",
        "csv",
        "ctypes",
        "curses",
        "dataclasses",
        "datetime",
        "dbm",
        "decimal",
        "difflib",
        "dis",
        "distutils",
        "doctest",
        "email",
        "encodings",
        "ensurepip",
        "enum",
        "errno",
        "faulthandler",
        "fcntl",
        "filecmp",
        "fileinput",
        "fnmatch",
        "fractions",
        "ftplib",
        "functools",
        "gc",
        "genericpath",
        "getopt",
        "getpass",
        "gettext",
        "glob",
        "graphlib",
        "grp",
        "gzip",
        "hashlib",
        "heapq",
        "hmac",
        "html",
        "http",
        "idlelib",
        "imaplib",
        "imghdr",
        "imp",
        "importlib",
        "inspect",
        "io",
        "ipaddress",
        "itertools",
        "json",
        "keyword",
        "lib2to3",
        "linecache",
        "locale",
        "logging",
        "lzma",
        "mailbox",
        "mailcap",
        "marshal",
        "math",
        "mimetypes",
        "mmap",
        "modulefinder",
        "msilib",
        "msvcrt",
        "multiprocessing",
        "netrc",
        "nis",
        "nntplib",
        "ntpath",
        "nturl2path",
        "numbers",
        "opcode",
        "operator",
        "optparse",
        "os",
        "ossaudiodev",
        "pathlib",
        "pdb",
        "pickle",
        "pickletools",
        "pipes",
        "pkgutil",
        "platform",
        "plistlib",
        "poplib",
        "posix",
        "posixpath",
        "pprint",
        "profile",
        "pstats",
        "pty",
        "pwd",
        "py_compile",
        "pyclbr",
        "pydoc",
        "pydoc_data",
        "pyexpat",
        "queue",
        "quopri",
        "random",
        "re",
        "readline",
        "reprlib",
        "resource",
        "rlcompleter",
        "runpy",
        "sched",
        "secrets",
        "select",
        "selectors",
        "shelve",
        "shlex",
        "shutil",
        "signal",
        "site",
        "smtpd",
        "smtplib",
        "sndhdr",
        "socket",
        "socketserver",
        "spwd",
        "sqlite3",
        "sre_compile",
        "sre_constants",
        "sre_parse",
        "ssl",
        "stat",
        "statistics",
        "string",
        "stringprep",
        "struct",
        "subprocess",
        "sunau",
        "symtable",
        "sys",
        "sysconfig",
        "syslog",
        "tabnanny",
        "tarfile",
        "telnetlib",
        "tempfile",
        "termios",
        "textwrap",
        "this",
        "threading",
        "time",
        "timeit",
        "tkinter",
        "token",
        "tokenize",
        "tomllib",
        "trace",
        "traceback",
        "tracemalloc",
        "tty",
        "turtle",
        "turtledemo",
        "types",
        "typing",
        "unicodedata",
        "unittest",
        "urllib",
        "uu",
        "uuid",
        "venv",
        "warnings",
        "wave",
        "weakref",
        "webbrowser",
        "winreg",
        "winsound",
        "wsgiref",
        "xdrlib",
        "xml",
        "xmlrpc",
        "zipapp",
        "zipfile",
        "zipimport",
        "zlib",
        "zoneinfo"
    ];
    assert(v@.map_values(|s: &str| s@) =~= stdlib_names());
    v
}

/// Whether `module` (a top-level module name) belongs to the standard library.
pub fn is_stdlib_module(module: &str) -> (b: bool)
    ensures
        b == stdlib_module(module@),
{
    let m = chars_of(module);
    let table = stdlib_table();
    let ghost names = stdlib_names();
    let mut i: usize = 0;
    while i < table.len()
        invariant
            i <= table@.len(),
            table@.map_values(|s: &str| s@) == names,
            names == stdlib_names(),
            m@ == module@,
            forall|k: int| 0 <= k < i ==> names[k] != m@,
        decreases table@.len() - i,
    {
        let t = chars_of(table[i]);
        assert(names[i as int] == table@[i as int]@);
        if chars_eq(&t, &m) {
            assert(names[i as int] == m@);
            return true;
        }
        i = i + 1;
    }
    false
}

/// The top-level module of each comma-separated entry of a bare `import`.
pub open spec fn bare_tops(pieces: Seq<Seq<char>>) -> Seq<Seq<char>>
    decreases pieces.len(),
{
    if pieces.len() == 0 {
        Seq::empty()
    } else {
        let r = bare_tops(pieces.drop_last());
        let top = before_char(first_token(trim(pieces.last())), '.');
        if top.len() == 0 {
            r
        } else {
            r.push(top)
        }
    }
}

/// The top-level packages an import line names: `from a.b import c` names
/// `a`; `import a.b, c as d` names `a` and `c`; any other line names none.
pub open spec fn top_level_modules(line: Seq<char>) -> Seq<Seq<char>> {
    let t = trim(line);
    match strip_prefix(t, "from "@) {
        Some(rest) => {
            let top = before_char(first_token(rest), '.');
            if top.len() == 0 {
                Seq::empty()
            } else {
                seq![top]
            }
        },
        None => match strip_prefix(t, "import "@) {
            Some(rest) => bare_tops(split_on(rest, ',')),
            None => Seq::empty(),
        },
    }
}

pub fn top_level_modules_chars(line: &[char]) -> (r: Vec<Vec<char>>)
    ensures
        views(r@) == top_level_modules(line@),
{
    proof {
        reveal_strlit("from ");
        reveal_strlit("import ");
    }
    let t = trim_chars(line);
    let from_kw = chars_of("from ");
    if let Some(rest) = strip_prefix_chars(&t, &from_kw) {
        let tok = first_token_chars(&rest);
        let top = before_char_chars(&tok, '.');
        let mut r: Vec<Vec<char>> = Vec::new();
        if top.len() > 0 {
            r.push(top);
            assert(views(r@) =~= seq![before_char(first_token(rest@), '.')]);
        } else {
            assert(views(r@) =~= Seq::<Seq<char>>::empty());
        }
        return r;
    }
    let import_kw = chars_of("import ");
    match strip_prefix_chars(&t, &import_kw) {
        Some(rest) => {
            let pieces = split_chars(&rest, ',');
            let ghost ps = views(pieces@);
            let mut r: Vec<Vec<char>> = Vec::new();
            let mut i: usize = 0;
            while i < pieces.len()
                invariant
                    i <= pieces@.len(),
                    ps == views(pieces@),
                    views(r@) == bare_tops(ps.take(i as int)),
                decreases pieces@.len() - i,
            {
                assert(ps.take(i + 1).drop_last() =~= ps.take(i as int));
                assert(ps.take(i + 1).last() == pieces@[i as int]@);
                let tr = trim_chars(&pieces[i]);
                let tok = first_token_chars(&tr);
                let top = before_char_chars(&tok, '.');
                if top.len() > 0 {
                    let ghost before = views(r@);
                    r.push(top);
                    assert(views(r@) =~= before.push(top@));
                }
                i = i + 1;
            }
            assert(ps.take(ps.len() as int) =~= ps);
            r
        },
        None => {
            let r: Vec<Vec<char>> = Vec::new();
            assert(views(r@) =~= Seq::<Seq<char>>::empty());
            r
        },
    }
}

/// The top-level packages named by an import line, in order.
pub fn extract_top_level_modules(line: &str) -> (r: Vec<String>)
    ensures
        string_views(r@) == top_level_modules(line@),
{
    let v = chars_of(line);
    let tops = top_level_modules_chars(&v);
    let mut r: Vec<String> = Vec::new();
    let mut i: usize = 0;
    while i < tops.len()
        invariant
            i <= tops@.len(),
            r@.len() == i,
            forall|k: int| 0 <= k < i ==> (#[trigger] r@[k])@ == tops@[k]@,
        decreases tops@.len() - i,
    {
        r.push(string_of(&tops[i]));
        i = i + 1;
    }
    assert(string_views(r@) =~= views(tops@));
    r
}

/// The isort section an import belongs to.
#[derive(Debug, Clone, Copy, PartialEq, Eq, Structural)]
pub enum ImportKind {
    Stdlib,
    ThirdParty,
}

/// The section of an import statement, decided by the first module it names.
pub open spec fn import_kind(statement: Seq<char>) -> ImportKind {
    let tops = top_level_modules(statement);
    if tops.len() > 0 && stdlib_module(tops[0]) {
        ImportKind::Stdlib
    } else {
        ImportKind::ThirdParty
    }
}

fn kind_of_module(module: &Vec<char>) -> (k: ImportKind)
    ensures
        k == (if stdlib_module(module@) {
            ImportKind::Stdlib
        } else {
            ImportKind::ThirdParty
        }),
{
    let s = string_of(module);
    if is_stdlib_module(s.as_str()) {
        ImportKind::Stdlib
    } else {
        ImportKind::ThirdParty
    }
}

pub fn classify_chars(statement: &[char]) -> (k: ImportKind)
    ensures
        k == import_kind(statement@),
{
    let tops = top_level_modules_chars(statement);
    if tops.len() > 0 {
        assert(views(tops@)[0] == tops@[0]@);
        kind_of_module(&tops[0])
    } else {
        ImportKind::ThirdParty
    }
}

/// Whether an import statement belongs to the standard-library section or
/// the third-party section.
pub fn classify_import_statement(statement: &str) -> (k: ImportKind)
    ensures
        k == import_kind(statement@),
{
    let v = chars_of(statement);
    classify_chars(&v)
}

/// A contiguous block of module-level import lines.
#[derive(Debug, Clone, Copy, PartialEq, Eq, Structural)]
pub struct ImportGroup {
    /// 0-based index of the first import line of the block.
    pub first_line: usize,
    /// 0-based index of its last line (the closing `)` of a multi-line import).
    pub last_line: usize,
    /// The section of the block's first import.
    pub kind: ImportKind,
}

/// The state of the scan of a file's import block after some lines.
pub struct GroupScan {
    pub groups: Seq<ImportGroup>,
    /// Where the open block started, if one is open.
    pub start: Option<nat>,
    pub last: nat,
    pub kind: ImportKind,
    pub seen_import: bool,
    pub in_multiline: bool,
    pub done: bool,
}

/// An unindented `import` or `from` statement.
pub open spec fn line_is_import(l: Seq<char>) -> bool {
    seq_starts_with(l, "import "@) || seq_starts_with(l, "from "@)
}

/// The line, before any comment, opens a parenthesis it does not close.
pub open spec fn opens_block(l: Seq<char>) -> bool {
    let c = before_char(l, '#');
    seq_has_char(c, '(') && !seq_has_char(c, ')')
}

/// The line, before any comment, holds a `)`.
pub open spec fn closes_block(l: Seq<char>) -> bool {
    seq_has_char(before_char(l, '#'), ')')
}

pub open spec fn initial_scan() -> GroupScan {
    GroupScan {
        groups: Seq::empty(),
        start: None,
        last: 0,
        kind: ImportKind::ThirdParty,
        seen_import: false,
        in_multiline: false,
        done: false,
    }
}

/// Closes the open block, if any.
pub open spec fn close_group(st: GroupScan) -> GroupScan {
    match st.start {
        Some(b) => GroupScan {
            groups: st.groups.push(
                ImportGroup { first_line: b as usize, last_line: st.last as usize, kind: st.kind },
            ),
            start: None,
            last: st.last,
            kind: st.kind,
            seen_import: st.seen_import,
            in_multiline: st.in_multiline,
            done: st.done,
        },
        None => st,
    }
}

/// One line of the scan: lines of a multi-line import extend the block; an
/// import opens a block or extends the open one; a blank or comment line
/// closes the open block; any other line after the first import ends the scan
/// (before it, it is preamble and is skipped).
pub open spec fn scan_step(st: GroupScan, i: nat, l: Seq<char>) -> GroupScan {
    if st.done {
        st
    } else if st.in_multiline {
        GroupScan {
            groups: st.groups,
            start: st.start,
            last: i,
            kind: st.kind,
            seen_import: st.seen_import,
            in_multiline: !closes_block(l),
            done: false,
        }
    } else if line_is_import(l) {
        GroupScan {
            groups: st.groups,
            start: if st.start is None {
                Some(i)
            } else {
                st.start
            },
            last: i,
            kind: if st.start is None {
                import_kind(l)
            } else {
                st.kind
            },
            seen_import: true,
            in_multiline: opens_block(l),
            done: false,
        }
    } else {
        let t = trim(l);
        if t.len() == 0 || seq_starts_with(t, "#"@) {
            close_group(st)
        } else if st.seen_import {
            let c = close_group(st);
            GroupScan {
                groups: c.groups,
                start: c.start,
                last: c.last,
                kind: c.kind,
                seen_import: c.seen_import,
                in_multiline: c.in_multiline,
                done: true,
            }
        } else {
            st
        }
    }
}

pub open spec fn scan_lines(lines: Seq<Seq<char>>, n: int) -> GroupScan
    decreases n,
{
    if n <= 0 {
        initial_scan()
    } else {
        scan_step(scan_lines(lines, n - 1), (n - 1) as nat, lines[n - 1])
    }
}

/// The import blocks at the top of a file with lines `lines`.
pub open spec fn import_groups(lines: Seq<Seq<char>>) -> Seq<ImportGroup> {
    close_group(scan_lines(lines, lines.len() as int)).groups
}

proof fn lemma_scan_done(lines: Seq<Seq<char>>, i: int, n: int)
    requires
        0 <= i <= n,
        scan_lines(lines, i).done,
    ensures
        scan_lines(lines, n) == scan_lines(lines, i),
    decreases n - i,
{
    if n > i {
        lemma_scan_done(lines, i, n - 1);
    }
}

pub open spec fn str_views(v: Seq<&str>) -> Seq<Seq<char>> {
    v.map_values(|s: &str| s@)
}

/// The import blocks at the top of a file, each classified by its first
/// import. Leading preamble (docstring, comments) is skipped; the scan stops
/// at the first other statement after an import.
pub fn parse_import_groups(lines: &[&str]) -> (r: Vec<ImportGroup>)
    ensures
        r@ == import_groups(str_views(lines@)),
        forall|k: int| 0 <= k < r@.len() ==> (#[trigger] r@[k]).last_line < lines@.len(),
{
    proof {
        reveal_strlit("import ");
        reveal_strlit("from ");
        reveal_strlit("#");
    }
    let ghost ls = str_views(lines@);
    let import_kw = chars_of("import ");
    let from_kw = chars_of("from ");
    let hash = chars_of("#");
    let mut groups: Vec<ImportGroup> = Vec::new();
    let mut start: Option<usize> = None;
    let mut last: usize = 0;
    let mut kind = ImportKind::ThirdParty;
    let mut seen_import = false;
    let mut in_multiline = false;
    let mut i: usize = 0;
    while i < lines.len()
        invariant_except_break
            ({
                let st = scan_lines(ls, i as int);
                &&& st.groups == groups@
                &&& st.start == (match start {
                    Some(b) => Some(b as nat),
                    None => None,
                })
                &&& st.last == last as nat
                &&& st.kind == kind
                &&& st.seen_import == seen_import
                &&& st.in_multiline == in_multiline
                &&& !st.done
            }),
            start matches Some(b) ==> b < i && last < i,
            last <= i,
            forall|k: int| 0 <= k < groups@.len() ==> (#[trigger] groups@[k]).last_line < i,
        invariant
            i <= lines@.len(),
            ls == str_views(lines@),
            forall|k: int| 0 <= k < groups@.len() ==> (#[trigger] groups@[k]).last_line < lines@.len(),
            import_kw@ == "import "@,
            from_kw@ == "from "@,
            hash@ == "#"@,
        ensures
            start matches Some(_) ==> last < lines@.len(),
            close_group(scan_lines(ls, ls.len() as int)).groups == ({
                let st = GroupScan {
                    groups: groups@,
                    start: match start {
                        Some(b) => Some(b as nat),
                        None => None,
                    },
                    last: last as nat,
                    kind: kind,
                    seen_import: seen_import,
                    in_multiline: in_multiline,
                    done: false,
                };
                close_group(st).groups
            }),
        decreases lines@.len() - i,
    {
        let line = chars_of(lines[i]);
        assert(ls[i as int] == line@);
        if in_multiline {
            last = i;
            let nc = before_char_chars(&line, '#');
            if has_char(&nc, ')') {
                in_multiline = false;
            }
            i = i + 1;
            continue;
        }
        if starts_with(&line, &import_kw) || starts_with(&line, &from_kw) {
            seen_import = true;
            if start.is_none() {
                start = Some(i);
                kind = classify_chars(&line);
            }
            last = i;
            let nc = before_char_chars(&line, '#');
            in_multiline = has_char(&nc, '(') && !has_char(&nc, ')');
            i = i + 1;
            continue;
        }
        let t = trim_chars(&line);
        if t.len() == 0 || starts_with(&t, &hash) {
            if let Some(b) = start {
                groups.push(ImportGroup { first_line: b, last_line: last, kind: kind });
                start = None;
            }
            i = i + 1;
            continue;
        }
        if seen_import {
            if let Some(b) = start {
                groups.push(ImportGroup { first_line: b, last_line: last, kind: kind });
                start = None;
            }
            proof {
                lemma_scan_done(ls, i + 1, ls.len() as int);
            }
            break;
        }
        i = i + 1;
    }
    if let Some(b) = start {
        groups.push(ImportGroup { first_line: b, last_line: last, kind: kind });
    }
    groups
}

/// Whether a code-action kind `a` is asked for by a filter entry `k`: it is
/// `k` itself or lies under it (`k` followed by a `.`).
pub open spec fn kind_matches(a: Seq<char>, k: Seq<char>) -> bool {
    a == k || seq_starts_with(a, k.push('.'))
}

fn any_kind_matches(kinds: &[String], action_kind: &str) -> (b: bool)
    ensures
        b == exists|i: int| 0 <= i < kinds@.len() && kind_matches(action_kind@, #[trigger] kinds@[i]@),
{
    let a = chars_of(action_kind);
    let mut i: usize = 0;
    while i < kinds.len()
        invariant
            i <= kinds@.len(),
            a@ == action_kind@,
            forall|j: int| 0 <= j < i ==> !kind_matches(a@, #[trigger] kinds@[j]@),
        decreases kinds@.len() - i,
    {
        let k = chars_of(kinds[i].as_str());
        let mut kd = chars_of(kinds[i].as_str());
        kd.push('.');
        assert(kd@ == k@.push('.'));
        if chars_eq(&a, &k) || starts_with(&a, &kd) {
            assert(kind_matches(a@, kinds@[i as int]@));
            return true;
        }
        i = i + 1;
    }
    false
}

/// Whether the client's `only` filter admits code actions of kind
/// `action_kind`: with no filter every kind is admitted, else the kind must
/// match one entry of the filter.
pub fn kind_requested(only: &Option<Vec<String>>, action_kind: &str) -> (b: bool)
    ensures
        only is None ==> b,
        only matches Some(ks) ==> (b <==> exists|i: int|
            0 <= i < ks@.len() && kind_matches(action_kind@, #[trigger] ks@[i]@)),
{
    match only {
        None => true,
        Some(ks) => any_kind_matches(ks.as_slice(), action_kind),
    }
}

/// The module and the imported names of `from <module> import <names>`:
/// both trimmed, neither empty.
pub open spec fn from_import_parts(statement: Seq<char>) -> Option<(Seq<char>, Seq<char>)> {
    match strip_prefix(statement, "from "@) {
        None => None,
        Some(rest) => match find_spec(rest, " import "@) {
            None => None,
            Some(i) => {
                let module = trim(rest.take(i));
                let names = trim(rest.skip(i + 8));
                if module.len() == 0 || names.len() == 0 {
                    None
                } else {
                    Some((module, names))
                }
            },
        },
    }
}

pub fn from_import_parts_chars(statement: &[char]) -> (r: Option<(Vec<char>, Vec<char>)>)
    ensures
        match r {
            Some((m, n)) => from_import_parts(statement@) == Some((m@, n@)),
            None => from_import_parts(statement@) is None,
        },
{
    proof {
        reveal_strlit("from ");
        reveal_strlit(" import ");
    }
    let from_kw = chars_of("from ");
    let import_kw = chars_of(" import ");
    let rest = match strip_prefix_chars(statement, &from_kw) {
        Some(r) => r,
        None => {
            return None;
        },
    };
    let found = find_first(&rest, &import_kw);
    let i = match found {
        Some(i) => i,
        None => {
            return None;
        },
    };
    assert(import_kw@.len() == 8);
    let rl = rest.len();
    assert(i + import_kw@.len() <= rl);
    let m0 = slice_range(&rest, 0, i);
    assert(m0@ =~= rest@.take(i as int));
    let n0 = slice_range(&rest, i + 8, rl);
    assert(n0@ =~= rest@.skip(i + 8));
    let module = trim_chars(&m0);
    let names = trim_chars(&n0);
    if module.len() == 0 || names.len() == 0 {
        return None;
    }
    Some((module, names))
}

/// Splits `from X import Y` into its module `X` and names `Y`; `None` for any
/// other statement (a bare `import X` among them).
pub fn parse_from_import(statement: &str) -> (r: Option<(String, String)>)
    ensures
        match r {
            Some((m, n)) => from_import_parts(statement@) == Some((m@, n@)),
            None => from_import_parts(statement@) is None,
        },
{
    let v = chars_of(statement);
    match from_import_parts_chars(&v) {
        Some((m, n)) => Some((string_of(&m), string_of(&n))),
        None => None,
    }
}

/// The name an import entry sorts by: `Path as P` sorts as `Path`.
pub open spec fn sort_name(name: Seq<char>) -> Seq<char> {
    match find_spec(name, " as "@) {
        Some(p) => trim(name.take(p)),
        None => trim(name),
    }
}

pub fn sort_name_chars(name: &[char]) -> (r: Vec<char>)
    ensures
        r@ == sort_name(name@),
{
    proof {
        reveal_strlit(" as ");
    }
    let as_kw = chars_of(" as ");
    match find_first(name, &as_kw) {
        Some(p) => {
            let head = slice_range(name, 0, p);
            assert(head@ =~= name@.take(p as int));
            trim_chars(&head)
        },
        None => trim_chars(name),
    }
}

/// The name an import entry sorts by (isort sorts by the original name).
pub fn import_sort_key(name: &str) -> (r: String)
    ensures
        r@ == sort_name(name@),
{
    let v = chars_of(name);
    let k = sort_name_chars(&v);
    string_of(&k)
}

/// The statement prefix `from <module> import `.
pub open spec fn from_prefix(module: Seq<char>) -> Seq<char> {
    "from "@ + module + " import "@
}

/// Whether the trimmed line holds `(`, `)` or `*`: a multi-line or star import.
pub open spec fn paren_or_star(t: Seq<char>) -> bool {
    seq_has_char(t, '(') || seq_has_char(t, ')') || seq_has_char(t, '*')
}

/// The line without surrounding whitespace and without its comment.
pub open spec fn code_part(line: Seq<char>) -> Seq<char> {
    trim_end(before_char(trim(line), '#'))
}

/// A single-line `from <module> import` whose names part is blank once the
/// comment is removed: the names cannot be read off such a line.
pub open spec fn blank_from_import(line: Seq<char>, module: Seq<char>) -> bool {
    &&& seq_starts_with(line, from_prefix(module))
    &&& !paren_or_star(trim(line))
    &&& code_part(line).len() < from_prefix(module).len()
}

/// The names of a matching line: its code part after the prefix, split at
/// commas, each trimmed.
pub open spec fn line_names(line: Seq<char>, module: Seq<char>) -> Seq<Seq<char>> {
    split_on(code_part(line).skip(from_prefix(module).len() as int), ',').map_values(
        |n: Seq<char>| trim(n),
    )
}

/// Whether line `line` is a single-line `from <module> import ...` to merge into.
pub open spec fn matching_from_line(line: Seq<char>, module: Seq<char>) -> bool {
    &&& seq_starts_with(line, from_prefix(module))
    &&& !paren_or_star(trim(line))
    &&& !blank_from_import(line, module)
    &&& forall|k: int| 0 <= k < line_names(line, module).len() ==> (#[trigger] line_names(line, module)[k]).len() > 0
}

/// The first line, from index `i` on, that is a single-line
/// `from <module> import` with no empty name.
pub open spec fn matching_line_from(lines: Seq<Seq<char>>, module: Seq<char>, i: int) -> Option<int>
    decreases lines.len() - i,
{
    if i < 0 || i >= lines.len() {
        None
    } else if matching_from_line(lines[i], module) {
        Some(i)
    } else {
        matching_line_from(lines, module, i + 1)
    }
}

fn code_part_chars(line: &[char]) -> (r: Vec<char>)
    ensures
        r@ == code_part(line@),
{
    let t = trim_chars(line);
    let b = before_char_chars(&t, '#');
    trim_end_chars(&b)
}

/// The code part of a line: trimmed, without its comment.
pub fn code_part_chars_pub(line: &[char]) -> (r: Vec<char>)
    ensures
        r@ == code_part(line@),
{
    code_part_chars(line)
}

fn from_prefix_chars(module: &[char]) -> (r: Vec<char>)
    ensures
        r@ == from_prefix(module@),
{
    proof {
        reveal_strlit("from ");
        reveal_strlit(" import ");
    }
    let a = concat(&chars_of("from "), module);
    concat(&a, &chars_of(" import "))
}

/// Line `line` as a matching line for `module`: its names, when it is one.
fn match_from_line(line: &[char], module: &[char], prefix: &Vec<char>) -> (r: Option<Vec<Vec<char>>>)
    requires
        prefix@ == from_prefix(module@),
    ensures
        match r {
            Some(ns) => matching_from_line(line@, module@) && views(ns@) == line_names(line@, module@),
            None => !matching_from_line(line@, module@),
        },
{
    if !starts_with(line, prefix) {
        return None;
    }
    let t = trim_chars(line);
    if has_char(&t, '(') || has_char(&t, ')') || has_char(&t, '*') {
        return None;
    }
    let c = code_part_chars(line);
    if c.len() < prefix.len() {
        return None;
    }
    let tail = slice_range(&c, prefix.len(), c.len());
    assert(tail@ =~= code_part(line@).skip(from_prefix(module@).len() as int));
    let pieces = split_chars(&tail, ',');
    let ghost ps = views(pieces@);
    let mut names: Vec<Vec<char>> = Vec::new();
    let mut i: usize = 0;
    while i < pieces.len()
        invariant
            i <= pieces@.len(),
            ps == views(pieces@),
            ps == split_on(tail@, ','),
            tail@ == code_part(line@).skip(from_prefix(module@).len() as int),
            seq_starts_with(line@, from_prefix(module@)),
            !paren_or_star(trim(line@)),
            !blank_from_import(line@, module@),
            names@.len() == i,
            forall|k: int| 0 <= k < i ==> (#[trigger] names@[k])@ == trim(ps[k]),
            forall|k: int| 0 <= k < i ==> (#[trigger] names@[k])@.len() > 0,
        decreases pieces@.len() - i,
    {
        let n = trim_chars(&pieces[i]);
        if n.len() == 0 {
            proof {
                let ln = line_names(line@, module@);
                assert(ln.len() == ps.len());
                assert(ln[i as int] == trim(ps[i as int]));
                assert(!matching_from_line(line@, module@));
            }
            return None;
        }
        names.push(n);
        i = i + 1;
    }
    proof {
        let ln = line_names(line@, module@);
        assert(views(names@) =~= ln);
    }
    Some(names)
}

/// The first single-line, module-level `from <module> import ...` of the file
/// and its names (comment removed, each trimmed); multi-line and star imports
/// are skipped, and so is a line with an empty name (a blank names part
/// among them).
pub fn find_matching_from_import_line(lines: &[&str], module: &str) -> (r: Option<(usize, Vec<String>)>)
    ensures
        match r {
            Some((i, ns)) => matching_line_from(str_views(lines@), module@, 0) == Some(i as int)
                && i < lines@.len() && string_views(ns@) == line_names(lines@[i as int]@, module@),
            None => matching_line_from(str_views(lines@), module@, 0) is None,
        },
{
    let m = chars_of(module);
    let prefix = from_prefix_chars(&m);
    let ghost ls = str_views(lines@);
    let mut i: usize = 0;
    while i < lines.len()
        invariant
            i <= lines@.len(),
            ls == str_views(lines@),
            m@ == module@,
            prefix@ == from_prefix(module@),
            matching_line_from(ls, module@, 0) == matching_line_from(ls, module@, i as int),
        decreases lines@.len() - i,
    {
        let line = chars_of(lines[i]);
        assert(ls[i as int] == line@);
        if let Some(ns) = match_from_line(&line, &m, &prefix) {
            let mut out: Vec<String> = Vec::new();
            let mut k: usize = 0;
            while k < ns.len()
                invariant
                    k <= ns@.len(),
                    out@.len() == k,
                    forall|q: int| 0 <= q < k ==> (#[trigger] out@[q])@ == ns@[q]@,
                decreases ns@.len() - k,
            {
                out.push(string_of(&ns[k]));
                k = k + 1;
            }
            assert(string_views(out@) =~= views(ns@));
            return Some((i, out));
        }
        i = i + 1;
    }
    None
}

/// The isort key of an import line: bare imports (`0`) before from-imports
/// (`1`) before anything else (`2`), then the module path, lowercased.
pub open spec fn line_sort_key(line: Seq<char>) -> (u8, Seq<char>) {
    let t = trim(line);
    match strip_prefix(t, "import "@) {
        Some(rest) => (0, lowercase(first_token(rest))),
        None => match strip_prefix(t, "from "@) {
            Some(rest) => (1, lowercase(trim(before_seq(rest, " import "@)))),
            None => (2, Seq::empty()),
        },
    }
}

/// The order of isort keys: by category, then by module path.
pub open spec fn key_lt(a: (u8, Seq<char>), b: (u8, Seq<char>)) -> bool {
    a.0 < b.0 || (a.0 == b.0 && seq_lt(a.1, b.1))
}

/// The isort key of an import line.
pub fn import_line_sort_key(line: &str) -> (r: (u8, String))
    ensures
        (r.0, r.1@) == line_sort_key(line@),
{
    proof {
        reveal_strlit("import ");
        reveal_strlit("from ");
        reveal_strlit(" import ");
    }
    let v = chars_of(line);
    let t = trim_chars(&v);
    if let Some(rest) = strip_prefix_chars(&t, &chars_of("import ")) {
        let tok = first_token_chars(&rest);
        let m = string_of(&tok);
        return (0, to_lowercase(m.as_str()));
    }
    if let Some(rest) = strip_prefix_chars(&t, &chars_of("from ")) {
        let head = before_seq_chars(&rest, &chars_of(" import "));
        let m = trim_chars(&head);
        let ms = string_of(&m);
        return (1, to_lowercase(ms.as_str()));
    }
    (2, String::new())
}

fn key_less(a: &(u8, String), b: &(u8, String)) -> (r: bool)
    ensures
        r == key_lt((a.0, a.1@), (b.0, b.1@)),
{
    a.0 < b.0 || (a.0 == b.0 && str_lt(a.1.as_str(), b.1.as_str()))
}

/// The first line of `g` (from index `i` on, within `lines`) whose key sorts
/// after `key`.
pub open spec fn first_after(lines: Seq<Seq<char>>, g: ImportGroup, key: (u8, Seq<char>), i: int) -> Option<int>
    decreases lines.len() - i,
{
    if i < g.first_line || i > g.last_line || i >= lines.len() || i < 0 {
        None
    } else if key_lt(key, line_sort_key(lines[i])) {
        Some(i)
    } else {
        first_after(lines, g, key, i + 1)
    }
}

/// Where a new import with key `key` goes in group `g` so that the group stays
/// sorted: before the first line that sorts after it, else after the group.
pub open spec fn sorted_insert_position(lines: Seq<Seq<char>>, g: ImportGroup, key: (u8, Seq<char>)) -> u32 {
    match first_after(lines, g, key, g.first_line as int) {
        Some(i) => i as u32,
        None => (g.last_line + 1) as u32,
    }
}

/// The 0-based line at which to insert an import with key `sort_key` into
/// `group`, keeping the group in isort order.
pub fn find_sorted_insert_position(lines: &[&str], group: &ImportGroup, sort_key: &(u8, String)) -> (r: u32)
    requires
        group.last_line < usize::MAX,
    ensures
        r == sorted_insert_position(str_views(lines@), *group, (sort_key.0, sort_key.1@)),
{
    let ghost ls = str_views(lines@);
    let ghost key = (sort_key.0, sort_key.1@);
    let mut i: usize = group.first_line;
    while i <= group.last_line && i < lines.len()
        invariant
            group.first_line <= i,
            group.last_line < usize::MAX,
            ls == str_views(lines@),
            key == (sort_key.0, sort_key.1@),
            first_after(ls, *group, key, group.first_line as int) == first_after(ls, *group, key, i as int),
        decreases lines@.len() - i,
    {
        let existing = import_line_sort_key(lines[i]);
        assert(ls[i as int] == lines@[i as int]@);
        if key_less(sort_key, &existing) {
            return i as u32;
        }
        i = i + 1;
    }
    (group.last_line + 1) as u32
}

/// A position in a document: 0-based line and character.
#[derive(Debug, Clone, Copy, PartialEq, Eq, Structural)]
pub struct Position {
    pub line: u32,
    pub character: u32,
}

/// A range between two positions of a document.
#[derive(Debug, Clone, Copy, PartialEq, Eq, Structural)]
pub struct Range {
    pub start: Position,
    pub end: Position,
}

/// A replacement of the text in `range` by `new_text`.
#[derive(Debug)]
pub struct TextEdit {
    pub range: Range,
    pub new_text: String,
}

pub open spec fn edit_views(v: Seq<TextEdit>) -> Seq<(Range, Seq<char>)> {
    v.map_values(|e: TextEdit| (e.range, e.new_text@))
}

/// The empty range at the start of line `line`.
pub open spec fn point_range(line: u32) -> Range {
    Range { start: Position { line: line, character: 0 }, end: Position { line: line, character: 0 } }
}

/// The pieces of `s` joined with `sep` between them.
pub open spec fn join(s: Seq<Seq<char>>, sep: Seq<char>) -> Seq<char>
    decreases s.len(),
{
    if s.len() == 0 {
        Seq::empty()
    } else if s.len() == 1 {
        s[0]
    } else {
        join(s.drop_last(), sep) + sep + s.last()
    }
}

pub fn join_chars(s: &Vec<Vec<char>>, sep: &[char]) -> (r: Vec<char>)
    ensures
        r@ == join(views(s@), sep@),
{
    let ghost vs = views(s@);
    let mut r: Vec<char> = Vec::new();
    let mut i: usize = 0;
    while i < s.len()
        invariant
            i <= s@.len(),
            vs == views(s@),
            r@ == join(vs.take(i as int), sep@),
        decreases s@.len() - i,
    {
        assert(vs.take(i + 1).drop_last() =~= vs.take(i as int));
        assert(vs.take(i + 1).last() == s@[i as int]@);
        if i == 0 {
            r = concat(&r, &s[i]);
            assert(r@ =~= s@[0]@);
            assert(vs.take(1).len() == 1);
        } else {
            let r1 = concat(&r, sep);
            r = concat(&r1, &s[i]);
        }
        i = i + 1;
    }
    assert(vs.take(vs.len() as int) =~= vs);
    r
}

/// The key an imported name sorts by: its original name, lowercased.
pub open spec fn name_key(n: Seq<char>) -> Seq<char> {
    lowercase(sort_name(n))
}

/// The first index of `s`, from `i` on, whose key sorts after the key of `x`.
pub open spec fn name_slot(s: Seq<Seq<char>>, x: Seq<char>, i: int) -> int
    decreases s.len() - i,
{
    if i < 0 || i >= s.len() {
        s.len() as int
    } else if seq_lt(name_key(x), name_key(s[i])) {
        i
    } else {
        name_slot(s, x, i + 1)
    }
}

/// Names sorted by key, keeping the order of names with equal keys (what a
/// stable sort by `name_key` produces).
pub open spec fn sort_names(s: Seq<Seq<char>>) -> Seq<Seq<char>>
    decreases s.len(),
{
    if s.len() == 0 {
        Seq::empty()
    } else {
        let r = sort_names(s.drop_last());
        r.insert(name_slot(r, s.last(), 0), s.last())
    }
}

proof fn lemma_name_slot(s: Seq<Seq<char>>, x: Seq<char>, i: int)
    requires
        0 <= i <= s.len(),
    ensures
        i <= name_slot(s, x, i) <= s.len(),
    decreases s.len() - i,
{
    if i < s.len() && !seq_lt(name_key(x), name_key(s[i])) {
        lemma_name_slot(s, x, i + 1);
    }
}

fn name_key_of(n: &Vec<char>) -> (r: String)
    ensures
        r@ == name_key(n@),
{
    let k = sort_name_chars(n);
    let ks = string_of(&k);
    to_lowercase(ks.as_str())
}

/// `names` sorted stably by `name_key`.
pub fn sort_names_chars(names: &Vec<Vec<char>>) -> (r: Vec<Vec<char>>)
    ensures
        views(r@) == sort_names(views(names@)),
{
    let ghost ns = views(names@);
    let mut r: Vec<Vec<char>> = Vec::new();
    let mut keys: Vec<String> = Vec::new();
    let mut i: usize = 0;
    while i < names.len()
        invariant
            i <= names@.len(),
            ns == views(names@),
            views(r@) == sort_names(ns.take(i as int)),
            keys@.len() == r@.len(),
            forall|k: int| 0 <= k < r@.len() ==> (#[trigger] keys@[k])@ == name_key(r@[k]@),
        decreases names@.len() - i,
    {
        let x = &names[i];
        let xk = name_key_of(x);
        let ghost rs = views(r@);
        assert(ns.take(i + 1).drop_last() =~= ns.take(i as int));
        assert(ns.take(i + 1).last() == x@);
        let mut p: usize = 0;
        while p < r.len()
            invariant
                p <= r@.len(),
                rs == views(r@),
                keys@.len() == r@.len(),
                forall|k: int| 0 <= k < r@.len() ==> (#[trigger] keys@[k])@ == name_key(r@[k]@),
                xk@ == name_key(x@),
                name_slot(rs, x@, 0) == name_slot(rs, x@, p as int),
            ensures
                name_slot(rs, x@, 0) == p,
            decreases r@.len() - p,
        {
            assert(rs[p as int] == r@[p as int]@);
            if str_lt(xk.as_str(), keys[p].as_str()) {
                break;
            }
            p = p + 1;
        }
        r.insert(p, x.clone());
        keys.insert(p, xk);
        proof {
            assert(views(r@) =~= rs.insert(p as int, x@));
            assert forall|k: int| 0 <= k < r@.len() implies (#[trigger] keys@[k])@ == name_key(r@[k]@) by {
                if k < p {
                } else if k > p {
                }
            }
        }
        i = i + 1;
    }
    assert(ns.take(ns.len() as int) =~= ns);
    r
}

/// `s` with each run of equal adjacent elements reduced to one (`Vec::dedup`).
pub open spec fn dedup(s: Seq<Seq<char>>) -> Seq<Seq<char>>
    decreases s.len(),
{
    if s.len() <= 1 {
        s
    } else {
        let r = dedup(s.drop_last());
        if s.last() == s[s.len() - 2] {
            r
        } else {
            r.push(s.last())
        }
    }
}

pub fn dedup_chars(s: &Vec<Vec<char>>) -> (r: Vec<Vec<char>>)
    ensures
        views(r@) == dedup(views(s@)),
{
    let ghost vs = views(s@);
    let mut r: Vec<Vec<char>> = Vec::new();
    let mut i: usize = 0;
    while i < s.len()
        invariant
            i <= s@.len(),
            vs == views(s@),
            views(r@) == dedup(vs.take(i as int)),
        decreases s@.len() - i,
    {
        let ghost t = vs.take(i + 1);
        assert(t.drop_last() =~= vs.take(i as int));
        assert(t.last() == s@[i as int]@);
        if i == 0 {
            r.push(s[i].clone());
            assert(views(r@) =~= t);
        } else {
            assert(t[t.len() - 2] == s@[i - 1]@);
            if !chars_eq(&s[i], &s[i - 1]) {
                let ghost before = views(r@);
                r.push(s[i].clone());
                assert(views(r@) =~= before.push(s@[i as int]@));
            }
        }
        i = i + 1;
    }
    assert(vs.take(vs.len() as int) =~= vs);
    r
}

/// Whether some name of `acc` equals `n` once both are trimmed.
pub open spec fn has_trimmed(acc: Seq<Seq<char>>, n: Seq<char>) -> bool {
    exists|i: int| 0 <= i < acc.len() && trim(#[trigger] acc[i]) == trim(n)
}

/// `existing` followed by each name of `new` that is not already there.
pub open spec fn add_names(existing: Seq<Seq<char>>, new: Seq<Seq<char>>) -> Seq<Seq<char>>
    decreases new.len(),
{
    if new.len() == 0 {
        existing
    } else {
        let acc = add_names(existing, new.drop_last());
        if has_trimmed(acc, new.last()) {
            acc
        } else {
            acc.push(new.last())
        }
    }
}

/// The line that replaces a matching `from <module> import` line once the new
/// names are merged in: all names, sorted by key, adjacent duplicates removed.
pub open spec fn merged_line(line: Seq<char>, module: Seq<char>, new_names: Seq<Seq<char>>) -> Seq<char> {
    from_prefix(module) + join(dedup(sort_names(add_names(line_names(line, module), new_names))), ", "@)
}

/// The edit that rewrites line `i` into its merged form.
pub open spec fn merge_edit(lines: Seq<Seq<char>>, i: int, module: Seq<char>, new_names: Seq<Seq<char>>) -> (
    Range,
    Seq<char>,
) {
    (
        Range {
            start: Position { line: i as u32, character: 0 },
            end: Position {
                line: i as u32,
                character: (vstd::utf8::encode_utf8(lines[i]).len() as usize) as u32,
            },
        },
        merged_line(lines[i], module, new_names),
    )
}

/// The first pass over the from-imports, in order: the edits that merge into
/// existing lines, and the entries that have no line to merge into.
pub open spec fn merge_pass(lines: Seq<Seq<char>>, from: Seq<(Seq<char>, Seq<Seq<char>>)>) -> (
    Seq<(Range, Seq<char>)>,
    Seq<(Seq<char>, Seq<Seq<char>>)>,
)
    decreases from.len(),
{
    if from.len() == 0 {
        (Seq::empty(), Seq::empty())
    } else {
        let prev = merge_pass(lines, from.drop_last());
        let e = from.last();
        match matching_line_from(lines, e.0, 0) {
            Some(i) => (prev.0.push(merge_edit(lines, i, e.0, e.1)), prev.1),
            None => (prev.0, prev.1.push(e)),
        }
    }
}

/// A new import line to insert: its isort key and its text.
pub open spec fn from_entry(module: Seq<char>, names: Seq<Seq<char>>) -> ((u8, Seq<char>), Seq<char>) {
    let text = from_prefix(module) + join(sort_names(names), ", "@);
    (line_sort_key(text), text)
}

pub open spec fn bare_entries(bare: Seq<Seq<char>>) -> Seq<((u8, Seq<char>), Seq<char>)> {
    bare.map_values(|b: Seq<char>| (line_sort_key(b), b))
}

pub open spec fn from_entries(un: Seq<(Seq<char>, Seq<Seq<char>>)>) -> Seq<((u8, Seq<char>), Seq<char>)> {
    un.map_values(|e: (Seq<char>, Seq<Seq<char>>)| from_entry(e.0, e.1))
}

/// The first index of `s`, from `i` on, whose key sorts after the key of `x`.
pub open spec fn entry_slot(s: Seq<((u8, Seq<char>), Seq<char>)>, x: ((u8, Seq<char>), Seq<char>), i: int) -> int
    decreases s.len() - i,
{
    if i < 0 || i >= s.len() {
        s.len() as int
    } else if key_lt(x.0, s[i].0) {
        i
    } else {
        entry_slot(s, x, i + 1)
    }
}

/// Entries sorted stably by key.
pub open spec fn sort_entries(s: Seq<((u8, Seq<char>), Seq<char>)>) -> Seq<((u8, Seq<char>), Seq<char>)>
    decreases s.len(),
{
    if s.len() == 0 {
        Seq::empty()
    } else {
        let r = sort_entries(s.drop_last());
        r.insert(entry_slot(r, s.last(), 0), s.last())
    }
}

/// Where a new line with key `key` goes: its sorted place in `group`, or
/// `fallback` when there is no group.
pub open spec fn insert_line(lines: Seq<Seq<char>>, group: Option<ImportGroup>, fallback: u32, key: (
    u8,
    Seq<char>,
)) -> u32 {
    match group {
        Some(g) => sorted_insert_position(lines, g, key),
        None => fallback,
    }
}

pub open spec fn insert_edits(
    lines: Seq<Seq<char>>,
    group: Option<ImportGroup>,
    fallback: u32,
    es: Seq<((u8, Seq<char>), Seq<char>)>,
) -> Seq<(Range, Seq<char>)> {
    es.map_values(
        |e: ((u8, Seq<char>), Seq<char>)|
            (point_range(insert_line(lines, group, fallback, e.0)), e.1.push('\n')),
    )
}

/// The edits for one isort section: merges into existing lines first, then
/// the new lines (bare imports, then unmerged from-imports), sorted by key,
/// each inserted at its place.
pub open spec fn kind_edits(
    lines: Seq<Seq<char>>,
    from: Seq<(Seq<char>, Seq<Seq<char>>)>,
    bare: Seq<Seq<char>>,
    group: Option<ImportGroup>,
    fallback: u32,
) -> Seq<(Range, Seq<char>)> {
    let p = merge_pass(lines, from);
    p.0 + insert_edits(lines, group, fallback, sort_entries(bare_entries(bare) + from_entries(p.1)))
}

pub open spec fn from_views(v: Seq<(String, Vec<String>)>) -> Seq<(Seq<char>, Seq<Seq<char>>)> {
    v.map_values(|e: (String, Vec<String>)| (e.0@, string_views(e.1@)))
}

fn has_trimmed_exec(acc: &Vec<Vec<char>>, n: &Vec<char>) -> (b: bool)
    ensures
        b == has_trimmed(views(acc@), n@),
{
    let tn = trim_chars(n);
    let mut i: usize = 0;
    while i < acc.len()
        invariant
            i <= acc@.len(),
            tn@ == trim(n@),
            forall|k: int| 0 <= k < i ==> trim(#[trigger] views(acc@)[k]) != trim(n@),
        decreases acc@.len() - i,
    {
        let ta = trim_chars(&acc[i]);
        assert(views(acc@)[i as int] == acc@[i as int]@);
        if chars_eq(&ta, &tn) {
            return true;
        }
        i = i + 1;
    }
    false
}

fn strings_to_chars(v: &Vec<String>) -> (r: Vec<Vec<char>>)
    ensures
        views(r@) == string_views(v@),
{
    let mut r: Vec<Vec<char>> = Vec::new();
    let mut i: usize = 0;
    while i < v.len()
        invariant
            i <= v@.len(),
            r@.len() == i,
            forall|k: int| 0 <= k < i ==> (#[trigger] r@[k])@ == v@[k]@,
        decreases v@.len() - i,
    {
        r.push(chars_of(v[i].as_str()));
        i = i + 1;
    }
    assert(views(r@) =~= string_views(v@));
    r
}

fn add_names_chars(existing: Vec<Vec<char>>, new: &Vec<Vec<char>>) -> (r: Vec<Vec<char>>)
    ensures
        views(r@) == add_names(views(existing@), views(new@)),
{
    let ghost ex = views(existing@);
    let ghost nv = views(new@);
    let mut acc = existing;
    let mut i: usize = 0;
    while i < new.len()
        invariant
            i <= new@.len(),
            nv == views(new@),
            views(acc@) == add_names(ex, nv.take(i as int)),
        decreases new@.len() - i,
    {
        assert(nv.take(i + 1).drop_last() =~= nv.take(i as int));
        assert(nv.take(i + 1).last() == new@[i as int]@);
        if !has_trimmed_exec(&acc, &new[i]) {
            let ghost before = views(acc@);
            acc.push(new[i].clone());
            assert(views(acc@) =~= before.push(new@[i as int]@));
        }
        i = i + 1;
    }
    assert(nv.take(nv.len() as int) =~= nv);
    acc
}

fn from_line_text(module: &[char], names: &Vec<Vec<char>>) -> (r: Vec<char>)
    ensures
        r@ == from_prefix(module@) + join(views(names@), ", "@),
{
    proof {
        reveal_strlit(", ");
    }
    let prefix = from_prefix_chars(module);
    let j = join_chars(names, &chars_of(", "));
    concat(&prefix, &j)
}

fn text_edit(start_line: u32, start_char: u32, end_line: u32, end_char: u32, text: &Vec<char>) -> (e: TextEdit)
    ensures
        e.range == (Range {
            start: Position { line: start_line, character: start_char },
            end: Position { line: end_line, character: end_char },
        }),
        e.new_text@ == text@,
{
    TextEdit {
        range: Range {
            start: Position { line: start_line, character: start_char },
            end: Position { line: end_line, character: end_char },
        },
        new_text: string_of(text),
    }
}

/// An import line waiting to be inserted.
struct NewImport {
    key: (u8, String),
    text: Vec<char>,
}

spec fn new_import_views(v: Seq<NewImport>) -> Seq<((u8, Seq<char>), Seq<char>)> {
    v.map_values(|n: NewImport| ((n.key.0, n.key.1@), n.text@))
}

fn sort_new_imports(v: Vec<NewImport>) -> (r: Vec<NewImport>)
    ensures
        new_import_views(r@) == sort_entries(new_import_views(v@)),
{
    let ghost vs = new_import_views(v@);
    let mut r: Vec<NewImport> = Vec::new();
    let mut rest = v;
    let ghost n = vs.len();
    let mut taken: usize = 0;
    assert(vs.skip(0) =~= vs);
    let total = rest.len();
    while rest.len() > 0
        invariant
            taken + rest@.len() == n,
            n == total,
            n == vs.len(),
            new_import_views(rest@) == vs.skip(taken as int),
            new_import_views(r@) == sort_entries(vs.take(taken as int)),
        decreases rest@.len(),
    {
        let ghost before_rest = rest@;
        let x = rest.remove(0);
        proof {
            assert(new_import_views(before_rest)[0] == vs[taken as int]);
            assert(rest@ =~= before_rest.skip(1));
            assert(new_import_views(rest@) =~= new_import_views(before_rest).skip(1));
            assert(new_import_views(rest@) =~= vs.skip(taken + 1));
            assert(vs.take(taken + 1).drop_last() =~= vs.take(taken as int));
            assert(vs.take(taken + 1).last() == ((x.key.0, x.key.1@), x.text@));
        }
        let ghost rs = new_import_views(r@);
        let mut p: usize = 0;
        while p < r.len()
            invariant
                p <= r@.len(),
                rs == new_import_views(r@),
                entry_slot(rs, ((x.key.0, x.key.1@), x.text@), 0) == entry_slot(
                    rs,
                    ((x.key.0, x.key.1@), x.text@),
                    p as int,
                ),
            ensures
                entry_slot(rs, ((x.key.0, x.key.1@), x.text@), 0) == p,
            decreases r@.len() - p,
        {
            assert(rs[p as int] == ((r@[p as int].key.0, r@[p as int].key.1@), r@[p as int].text@));
            if key_less(&x.key, &r[p].key) {
                break;
            }
            p = p + 1;
        }
        let ghost xv = ((x.key.0, x.key.1@), x.text@);
        r.insert(p, x);
        assert(new_import_views(r@) =~= rs.insert(p as int, xv));
        taken = taken + 1;
    }
    assert(vs.take(n as int) =~= vs);
    r
}

fn duplicate_from_entry(e: &(String, Vec<String>)) -> (r: (String, Vec<String>))
    ensures
        r.0@ == e.0@,
        string_views(r.1@) == string_views(e.1@),
{
    (e.0.clone(), crate::types::duplicate_strings(e.1.as_slice()))
}

/// The first pass: merges each from-import into its existing line where one
/// exists; returns the entries left unmerged.
fn emit_merges(lines: &[&str], from_imports: &Vec<(String, Vec<String>)>, edits: &mut Vec<TextEdit>) -> (un:
    Vec<(String, Vec<String>)>)
    ensures
        edit_views(final(edits)@) == edit_views(old(edits)@) + merge_pass(
            str_views(lines@),
            from_views(from_imports@),
        ).0,
        from_views(un@) == merge_pass(str_views(lines@), from_views(from_imports@)).1,
{
    proof {
        reveal_strlit(", ");
    }
    let ghost ls = str_views(lines@);
    let ghost fv = from_views(from_imports@);
    let ghost e0 = edit_views(edits@);
    let mut un: Vec<(String, Vec<String>)> = Vec::new();
    let mut k: usize = 0;
    while k < from_imports.len()
        invariant
            k <= from_imports@.len(),
            ls == str_views(lines@),
            fv == from_views(from_imports@),
            edit_views(edits@) == e0 + merge_pass(ls, fv.take(k as int)).0,
            from_views(un@) == merge_pass(ls, fv.take(k as int)).1,
        decreases from_imports@.len() - k,
    {
        let entry = &from_imports[k];
        assert(fv.take(k + 1).drop_last() =~= fv.take(k as int));
        assert(fv.take(k + 1).last() == (entry.0@, string_views(entry.1@)));
        match find_matching_from_import_line(lines, entry.0.as_str()) {
            Some((idx, existing)) => {
                let ex = strings_to_chars(&existing);
                let nw = strings_to_chars(&entry.1);
                let all = add_names_chars(ex, &nw);
                let sorted = sort_names_chars(&all);
                let dd = dedup_chars(&sorted);
                let m = chars_of(entry.0.as_str());
                let text = from_line_text(&m, &dd);
                let len = lines[idx].len();
                let line_no = #[verifier::truncate] (idx as u32);
                let width = #[verifier::truncate] (len as u32);
                let e = text_edit(line_no, 0, line_no, width, &text);
                let ghost before = edit_views(edits@);
                edits.push(e);
                proof {
                    assert(ls[idx as int] == lines@[idx as int]@);
                    assert(text@ == merged_line(ls[idx as int], entry.0@, string_views(entry.1@)));
                    assert(edit_views(edits@) =~= before.push(
                        merge_edit(ls, idx as int, entry.0@, string_views(entry.1@)),
                    ));
                }
            },
            None => {
                let d = duplicate_from_entry(entry);
                let ghost before = from_views(un@);
                un.push(d);
                assert(from_views(un@) =~= before.push((entry.0@, string_views(entry.1@))));
            },
        }
        k = k + 1;
    }
    assert(fv.take(fv.len() as int) =~= fv);
    un
}

fn collect_new_imports(bare_imports: &Vec<String>, unmerged: &Vec<(String, Vec<String>)>) -> (r: Vec<NewImport>)
    ensures
        new_import_views(r@) == bare_entries(string_views(bare_imports@)) + from_entries(
            from_views(unmerged@),
        ),
{
    let ghost bv = string_views(bare_imports@);
    let ghost uv = from_views(unmerged@);
    let mut r: Vec<NewImport> = Vec::new();
    let mut i: usize = 0;
    while i < bare_imports.len()
        invariant
            i <= bare_imports@.len(),
            bv == string_views(bare_imports@),
            new_import_views(r@) == bare_entries(bv.take(i as int)),
        decreases bare_imports@.len() - i,
    {
        let b = &bare_imports[i];
        let key = import_line_sort_key(b.as_str());
        let ghost before = new_import_views(r@);
        r.push(NewImport { key: key, text: chars_of(b.as_str()) });
        assert(bv.take(i + 1) =~= bv.take(i as int).push(b@));
        assert(bare_entries(bv.take(i + 1)) =~= bare_entries(bv.take(i as int)).push(
            (line_sort_key(b@), b@),
        ));
        assert(new_import_views(r@) =~= before.push((line_sort_key(b@), b@)));
        i = i + 1;
    }
    assert(bv.take(bv.len() as int) =~= bv);
    let ghost base = new_import_views(r@);
    let mut j: usize = 0;
    while j < unmerged.len()
        invariant
            j <= unmerged@.len(),
            uv == from_views(unmerged@),
            base == bare_entries(bv),
            new_import_views(r@) == base + from_entries(uv.take(j as int)),
        decreases unmerged@.len() - j,
    {
        let e = &unmerged[j];
        let ns = strings_to_chars(&e.1);
        let sorted = sort_names_chars(&ns);
        let m = chars_of(e.0.as_str());
        let text = from_line_text(&m, &sorted);
        let ts = string_of(&text);
        let key = import_line_sort_key(ts.as_str());
        let ghost before = new_import_views(r@);
        r.push(NewImport { key: key, text: text });
        assert(uv.take(j + 1) =~= uv.take(j as int).push((e.0@, string_views(e.1@))));
        assert(from_entries(uv.take(j + 1)) =~= from_entries(uv.take(j as int)).push(
            from_entry(e.0@, string_views(e.1@)),
        ));
        assert(new_import_views(r@) =~= before.push(from_entry(e.0@, string_views(e.1@))));
        assert(new_import_views(r@) =~= base + from_entries(uv.take(j + 1)));
        j = j + 1;
    }
    assert(uv.take(uv.len() as int) =~= uv);
    r
}

fn emit_insertions(
    lines: &[&str],
    imports: &Vec<NewImport>,
    group: Option<ImportGroup>,
    fallback_insert_line: u32,
    edits: &mut Vec<TextEdit>,
)
    requires
        group matches Some(g) ==> g.last_line < usize::MAX,
    ensures
        edit_views(final(edits)@) == edit_views(old(edits)@) + insert_edits(
            str_views(lines@),
            group,
            fallback_insert_line,
            new_import_views(imports@),
        ),
{
    let ghost ls = str_views(lines@);
    let ghost iv = new_import_views(imports@);
    let ghost e0 = edit_views(edits@);
    let mut i: usize = 0;
    while i < imports.len()
        invariant
            i <= imports@.len(),
            ls == str_views(lines@),
            iv == new_import_views(imports@),
            group matches Some(g) ==> g.last_line < usize::MAX,
            edit_views(edits@) == e0 + insert_edits(ls, group, fallback_insert_line, iv.take(i as int)),
        decreases imports@.len() - i,
    {
        let ni = &imports[i];
        let line = match group {
            Some(g) => find_sorted_insert_position(lines, &g, &ni.key),
            None => fallback_insert_line,
        };
        let mut text = ni.text.clone();
        text.push('\n');
        let e = text_edit(line, 0, line, 0, &text);
        let ghost before = edit_views(edits@);
        edits.push(e);
        proof {
            assert(iv[i as int] == ((ni.key.0, ni.key.1@), ni.text@));
            assert(iv.take(i + 1) =~= iv.take(i as int).push(iv[i as int]));
            let ent = iv[i as int];
            assert(insert_edits(ls, group, fallback_insert_line, iv.take(i + 1)) =~= insert_edits(
                ls,
                group,
                fallback_insert_line,
                iv.take(i as int),
            ).push((point_range(insert_line(ls, group, fallback_insert_line, ent.0)), ent.1.push('\n'))));
            assert(edit_views(edits@) =~= before.push(
                (point_range(insert_line(ls, group, fallback_insert_line, ent.0)), ent.1.push('\n')),
            ));
            assert(edit_views(edits@) =~= e0 + insert_edits(ls, group, fallback_insert_line, iv.take(i + 1)));
        }
        i = i + 1;
    }
    assert(iv.take(iv.len() as int) =~= iv);
}

/// The edits that add the from-imports `from_imports` (module and names) and
/// the bare imports `bare_imports` of one isort section: merged into existing
/// lines where possible, otherwise inserted in sorted position within `group`
/// (or at `fallback_insert_line` when the section has no group yet).
fn emit_kind_import_edits(
    lines: &[&str],
    from_imports: &Vec<(String, Vec<String>)>,
    bare_imports: &Vec<String>,
    group: Option<ImportGroup>,
    fallback_insert_line: u32,
    edits: &mut Vec<TextEdit>,
)
    requires
        group matches Some(g) ==> g.last_line < usize::MAX,
    ensures
        edit_views(final(edits)@) == edit_views(old(edits)@) + kind_edits(
            str_views(lines@),
            from_views(from_imports@),
            string_views(bare_imports@),
            group,
            fallback_insert_line,
        ),
{
    let ghost e0 = edit_views(edits@);
    let un = emit_merges(lines, from_imports, edits);
    let ghost e1 = edit_views(edits@);
    let news = collect_new_imports(bare_imports, &un);
    let sorted = sort_new_imports(news);
    emit_insertions(lines, &sorted, group, fallback_insert_line, edits);
    assert(edit_views(edits@) =~= e0 + kind_edits(
        str_views(lines@),
        from_views(from_imports@),
        string_views(bare_imports@),
        group,
        fallback_insert_line,
    ));
}

/// The index of the entry of `from` for module `m`, if any.
pub open spec fn module_index(from: Seq<(Seq<char>, Seq<Seq<char>>)>, m: Seq<char>, i: int) -> Option<int>
    decreases from.len() - i,
{
    if i < 0 || i >= from.len() {
        None
    } else if from[i].0 == m {
        Some(i)
    } else {
        module_index(from, m, i + 1)
    }
}

/// The first index of `from`, from `i` on, whose module sorts after `m`.
pub open spec fn module_slot(from: Seq<(Seq<char>, Seq<Seq<char>>)>, m: Seq<char>, i: int) -> int
    decreases from.len() - i,
{
    if i < 0 || i >= from.len() {
        from.len() as int
    } else if seq_lt(m, from[i].0) {
        i
    } else {
        module_slot(from, m, i + 1)
    }
}

/// `from` (entries kept in module order) with name `n` added under module `m`.
pub open spec fn add_from(from: Seq<(Seq<char>, Seq<Seq<char>>)>, m: Seq<char>, n: Seq<char>) -> Seq<
    (Seq<char>, Seq<Seq<char>>),
> {
    match module_index(from, m, 0) {
        Some(i) => from.update(i, (m, from[i].1.push(n))),
        None => from.insert(module_slot(from, m, 0), (m, seq![n])),
    }
}

/// The imports to add, split by isort section and by form.
pub struct Classified {
    pub stdlib_from: Seq<(Seq<char>, Seq<Seq<char>>)>,
    pub tp_from: Seq<(Seq<char>, Seq<Seq<char>>)>,
    pub stdlib_bare: Seq<Seq<char>>,
    pub tp_bare: Seq<Seq<char>>,
    /// The names already taken by an earlier import.
    pub seen: Seq<Seq<char>>,
}

/// One import (`check_name`, statement): skipped when its name is already
/// imported in the file or by an earlier import; else filed by section, a
/// from-import under its module, a bare import as a whole statement.
pub open spec fn classify_step(c: Classified, spec: (Seq<char>, Seq<char>), existing: Seq<Seq<char>>) -> Classified {
    let (name, stmt) = spec;
    if existing.contains(name) || c.seen.contains(name) {
        c
    } else {
        let std = import_kind(stmt) == ImportKind::Stdlib;
        match from_import_parts(stmt) {
            Some((m, n)) => Classified {
                stdlib_from: if std {
                    add_from(c.stdlib_from, m, n)
                } else {
                    c.stdlib_from
                },
                tp_from: if std {
                    c.tp_from
                } else {
                    add_from(c.tp_from, m, n)
                },
                stdlib_bare: c.stdlib_bare,
                tp_bare: c.tp_bare,
                seen: c.seen.push(name),
            },
            None => Classified {
                stdlib_from: c.stdlib_from,
                tp_from: c.tp_from,
                stdlib_bare: if std {
                    c.stdlib_bare.push(stmt)
                } else {
                    c.stdlib_bare
                },
                tp_bare: if std {
                    c.tp_bare
                } else {
                    c.tp_bare.push(stmt)
                },
                seen: c.seen.push(name),
            },
        }
    }
}

pub open spec fn classify_all(specs: Seq<(Seq<char>, Seq<char>)>, existing: Seq<Seq<char>>) -> Classified
    decreases specs.len(),
{
    if specs.len() == 0 {
        Classified {
            stdlib_from: Seq::empty(),
            tp_from: Seq::empty(),
            stdlib_bare: Seq::empty(),
            tp_bare: Seq::empty(),
            seen: Seq::empty(),
        }
    } else {
        classify_step(classify_all(specs.drop_last(), existing), specs.last(), existing)
    }
}

/// The last group of kind `k`.
pub open spec fn last_of_kind(gs: Seq<ImportGroup>, k: ImportKind) -> Option<ImportGroup>
    decreases gs.len(),
{
    if gs.len() == 0 {
        None
    } else if gs.last().kind == k {
        Some(gs.last())
    } else {
        last_of_kind(gs.drop_last(), k)
    }
}

/// The first group of kind `k`.
pub open spec fn first_of_kind(gs: Seq<ImportGroup>, k: ImportKind) -> Option<ImportGroup>
    decreases gs.len(),
{
    if gs.len() == 0 {
        None
    } else if gs[0].kind == k {
        Some(gs[0])
    } else {
        first_of_kind(gs.drop_first(), k)
    }
}

/// Whether a section's imports will insert new lines (not only merge).
pub open spec fn will_insert(lines: Seq<Seq<char>>, from: Seq<(Seq<char>, Seq<Seq<char>>)>, bare: Seq<Seq<char>>) -> bool {
    (exists|k: int| 0 <= k < from.len() && matching_line_from(lines, (#[trigger] from[k]).0, 0) is None)
        || bare.len() > 0
}

/// A blank line inserted at the start of line `line`.
pub open spec fn separator(line: u32) -> (Range, Seq<char>) {
    (point_range(line), seq!['\n'])
}

/// Where new standard-library lines go when there is no such group: after the
/// last standard-library group, else before the first third-party group, else
/// at the top.
pub open spec fn std_fallback(gs: Seq<ImportGroup>) -> u32 {
    match last_of_kind(gs, ImportKind::Stdlib) {
        Some(sg) => (sg.last_line + 1) as u32,
        None => match first_of_kind(gs, ImportKind::ThirdParty) {
            Some(tg) => tg.first_line as u32,
            None => 0,
        },
    }
}

/// Where new third-party lines go when there is no such group: after the last
/// third-party group, else after the last standard-library group, else at the top.
pub open spec fn tp_fallback(gs: Seq<ImportGroup>) -> u32 {
    match last_of_kind(gs, ImportKind::ThirdParty) {
        Some(tg) => (tg.last_line + 1) as u32,
        None => match last_of_kind(gs, ImportKind::Stdlib) {
            Some(sg) => (sg.last_line + 1) as u32,
            None => 0,
        },
    }
}

/// The standard-library edits, followed by a separator when they open a new
/// group above an existing third-party group.
pub open spec fn std_edits(lines: Seq<Seq<char>>, c: Classified, gs: Seq<ImportGroup>) -> Seq<(Range, Seq<char>)> {
    let lsg = last_of_kind(gs, ImportKind::Stdlib);
    if c.stdlib_from.len() > 0 || c.stdlib_bare.len() > 0 {
        kind_edits(lines, c.stdlib_from, c.stdlib_bare, lsg, std_fallback(gs)) + if will_insert(
            lines,
            c.stdlib_from,
            c.stdlib_bare,
        ) && lsg is None && first_of_kind(gs, ImportKind::ThirdParty) is Some {
            seq![separator(std_fallback(gs))]
        } else {
            Seq::empty()
        }
    } else {
        Seq::empty()
    }
}

/// The third-party edits, preceded by a separator when they open a new group
/// below a standard-library group (existing or new).
pub open spec fn tp_edits(lines: Seq<Seq<char>>, c: Classified, gs: Seq<ImportGroup>) -> Seq<(Range, Seq<char>)> {
    let ltg = last_of_kind(gs, ImportKind::ThirdParty);
    if c.tp_from.len() > 0 || c.tp_bare.len() > 0 {
        (if will_insert(lines, c.tp_from, c.tp_bare) && ltg is None && (last_of_kind(
            gs,
            ImportKind::Stdlib,
        ) is Some || will_insert(lines, c.stdlib_from, c.stdlib_bare)) {
            seq![separator(tp_fallback(gs))]
        } else {
            Seq::empty()
        }) + kind_edits(lines, c.tp_from, c.tp_bare, ltg, tp_fallback(gs))
    } else {
        Seq::empty()
    }
}

/// All the edits that add the imports `specs` (check name, statement) to a
/// file with lines `lines` that already imports the names `existing`.
pub open spec fn import_edits(
    lines: Seq<Seq<char>>,
    specs: Seq<(Seq<char>, Seq<char>)>,
    existing: Seq<Seq<char>>,
) -> Seq<(Range, Seq<char>)> {
    let c = classify_all(specs, existing);
    let gs = import_groups(lines);
    std_edits(lines, c, gs) + tp_edits(lines, c, gs)
}

pub open spec fn spec_views(v: Seq<&TypeImportSpec>) -> Seq<(Seq<char>, Seq<char>)> {
    v.map_values(|s: &TypeImportSpec| s.view_pair())
}

fn add_from_exec(from: &mut Vec<(String, Vec<String>)>, m: String, n: String)
    ensures
        from_views(final(from)@) == add_from(from_views(old(from)@), m@, n@),
{
    let ghost fv = from_views(from@);
    let mc = chars_of(m.as_str());
    let mut i: usize = 0;
    while i < from.len()
        invariant
            i <= from@.len(),
            fv == from_views(from@),
            fv == from_views(old(from)@),
            mc@ == m@,
            module_index(fv, m@, 0) == module_index(fv, m@, i as int),
        decreases from@.len() - i,
    {
        let fm = chars_of(from[i].0.as_str());
        assert(fv[i as int].0 == from@[i as int].0@);
        if chars_eq(&fm, &mc) {
            let mut entry = from.remove(i);
            let ghost old_names = string_views(entry.1@);
            entry.1.push(n);
            assert(string_views(entry.1@) =~= old_names.push(n@));
            from.insert(i, entry);
            assert(from_views(from@) =~= fv.update(i as int, (m@, fv[i as int].1.push(n@))));
            return;
        }
        i = i + 1;
    }
    let mut p: usize = 0;
    while p < from.len()
        invariant
            p <= from@.len(),
            fv == from_views(from@),
            mc@ == m@,
            module_slot(fv, m@, 0) == module_slot(fv, m@, p as int),
        ensures
            module_slot(fv, m@, 0) == p,
        decreases from@.len() - p,
    {
        let fm = chars_of(from[p].0.as_str());
        assert(fv[p as int].0 == from@[p as int].0@);
        if chars_lt(&mc, &fm) {
            break;
        }
        p = p + 1;
    }
    let mut names: Vec<String> = Vec::new();
    names.push(n);
    let ghost nv = n@;
    assert(string_views(names@) =~= seq![nv]);
    from.insert(p, (m, names));
    assert(from_views(from@) =~= fv.insert(p as int, (mc@, seq![nv])));
}

fn classify_specs(specs: &[&TypeImportSpec], existing: &[String]) -> (r: (
    Vec<(String, Vec<String>)>,
    Vec<(String, Vec<String>)>,
    Vec<String>,
    Vec<String>,
))
    ensures
        ({
            let c = classify_all(spec_views(specs@), string_views(existing@));
            &&& from_views(r.0@) == c.stdlib_from
            &&& from_views(r.1@) == c.tp_from
            &&& string_views(r.2@) == c.stdlib_bare
            &&& string_views(r.3@) == c.tp_bare
        }),
{
    let ghost sv = spec_views(specs@);
    let ghost ev = string_views(existing@);
    let mut stdlib_from: Vec<(String, Vec<String>)> = Vec::new();
    let mut tp_from: Vec<(String, Vec<String>)> = Vec::new();
    let mut stdlib_bare: Vec<String> = Vec::new();
    let mut tp_bare: Vec<String> = Vec::new();
    let mut seen: Vec<String> = Vec::new();
    let mut k: usize = 0;
    while k < specs.len()
        invariant
            k <= specs@.len(),
            sv == spec_views(specs@),
            ev == string_views(existing@),
            ({
                let c = classify_all(sv.take(k as int), ev);
                &&& from_views(stdlib_from@) == c.stdlib_from
                &&& from_views(tp_from@) == c.tp_from
                &&& string_views(stdlib_bare@) == c.stdlib_bare
                &&& string_views(tp_bare@) == c.tp_bare
                &&& string_views(seen@) == c.seen
            }),
        decreases specs@.len() - k,
    {
        let sp = specs[k];
        assert(sv.take(k + 1).drop_last() =~= sv.take(k as int));
        assert(sv.take(k + 1).last() == sp.view_pair());
        let cn = chars_of(sp.check_name.as_str());
        if contains_path(existing, &cn) || contains_path(&seen, &cn) {
            k = k + 1;
            continue;
        }
        let ghost seen_before = string_views(seen@);
        seen.push(sp.check_name.clone());
        assert(string_views(seen@) =~= seen_before.push(sp.check_name@));
        let kind = classify_import_statement(sp.import_statement.as_str());
        match parse_from_import(sp.import_statement.as_str()) {
            Some((m, n)) => {
                match kind {
                    ImportKind::Stdlib => add_from_exec(&mut stdlib_from, m, n),
                    ImportKind::ThirdParty => add_from_exec(&mut tp_from, m, n),
                }
            },
            None => {
                match kind {
                    ImportKind::Stdlib => {
                        let ghost b = string_views(stdlib_bare@);
                        stdlib_bare.push(sp.import_statement.clone());
                        assert(string_views(stdlib_bare@) =~= b.push(sp.import_statement@));
                    },
                    ImportKind::ThirdParty => {
                        let ghost b = string_views(tp_bare@);
                        tp_bare.push(sp.import_statement.clone());
                        assert(string_views(tp_bare@) =~= b.push(sp.import_statement@));
                    },
                }
            },
        }
        k = k + 1;
    }
    assert(sv.take(sv.len() as int) =~= sv);
    (stdlib_from, tp_from, stdlib_bare, tp_bare)
}

fn last_group_of_kind(gs: &Vec<ImportGroup>, k: ImportKind) -> (r: Option<ImportGroup>)
    ensures
        r == last_of_kind(gs@, k),
{
    let mut i: usize = gs.len();
    assert(gs@.take(i as int) =~= gs@);
    while i > 0
        invariant
            i <= gs@.len(),
            last_of_kind(gs@, k) == last_of_kind(gs@.take(i as int), k),
        decreases i,
    {
        let ghost t = gs@.take(i as int);
        assert(t.drop_last() =~= gs@.take(i - 1));
        if gs[i - 1].kind == k {
            return Some(gs[i - 1]);
        }
        i = i - 1;
    }
    None
}

fn first_group_of_kind(gs: &Vec<ImportGroup>, k: ImportKind) -> (r: Option<ImportGroup>)
    ensures
        r == first_of_kind(gs@, k),
{
    let mut i: usize = 0;
    assert(gs@.skip(0) =~= gs@);
    while i < gs.len()
        invariant
            i <= gs@.len(),
            first_of_kind(gs@, k) == first_of_kind(gs@.skip(i as int), k),
        decreases gs@.len() - i,
    {
        let ghost t = gs@.skip(i as int);
        assert(t.drop_first() =~= gs@.skip(i + 1));
        assert(t[0] == gs@[i as int]);
        if gs[i].kind == k {
            return Some(gs[i]);
        }
        i = i + 1;
    }
    None
}

fn will_insert_exec(lines: &[&str], from: &Vec<(String, Vec<String>)>, bare: &Vec<String>) -> (b: bool)
    ensures
        b == will_insert(str_views(lines@), from_views(from@), string_views(bare@)),
{
    let ghost ls = str_views(lines@);
    let ghost fv = from_views(from@);
    let mut k: usize = 0;
    while k < from.len()
        invariant
            k <= from@.len(),
            ls == str_views(lines@),
            fv == from_views(from@),
            forall|q: int| 0 <= q < k ==> matching_line_from(ls, (#[trigger] fv[q]).0, 0) is Some,
        decreases from@.len() - k,
    {
        assert(fv[k as int].0 == from@[k as int].0@);
        if find_matching_from_import_line(lines, from[k].0.as_str()).is_none() {
            return true;
        }
        k = k + 1;
    }
    bare.len() > 0
}

proof fn lemma_group_bound(gs: Seq<ImportGroup>, k: ImportKind, n: int)
    requires
        forall|i: int| 0 <= i < gs.len() ==> (#[trigger] gs[i]).last_line < n,
    ensures
        last_of_kind(gs, k) matches Some(g) ==> g.last_line < n,
        first_of_kind(gs, k) matches Some(g) ==> g.last_line < n,
    decreases gs.len(),
{
    if gs.len() > 0 {
        let a = gs.drop_last();
        assert forall|i: int| 0 <= i < a.len() implies (#[trigger] a[i]).last_line < n by {
            assert(a[i] == gs[i]);
        }
        let b = gs.drop_first();
        assert forall|i: int| 0 <= i < b.len() implies (#[trigger] b[i]).last_line < n by {
            assert(b[i] == gs[i + 1]);
        }
        assert(gs.last() == gs[gs.len() - 1]);
        lemma_group_bound(a, k, n);
        lemma_group_bound(b, k, n);
    }
}

fn separator_edit(line: u32) -> (e: TextEdit)
    ensures
        (e.range, e.new_text@) == separator(line),
{
    let mut t: Vec<char> = Vec::new();
    t.push('\n');
    assert(t@ =~= seq!['\n']);
    text_edit(line, 0, line, 0, &t)
}

fn group_fallback(g: Option<ImportGroup>, other: Option<ImportGroup>, use_first: bool) -> (r: u32)
    requires
        g matches Some(x) ==> x.last_line < usize::MAX,
        other matches Some(x) ==> x.last_line < usize::MAX,
    ensures
        r == match g {
            Some(x) => (x.last_line + 1) as u32,
            None => match other {
                Some(y) => if use_first {
                    y.first_line as u32
                } else {
                    (y.last_line + 1) as u32
                },
                None => 0,
            },
        },
{
    match g {
        Some(x) => #[verifier::truncate] ((x.last_line + 1) as u32),
        None => match other {
            Some(y) => if use_first {
                #[verifier::truncate] (y.first_line as u32)
            } else {
                #[verifier::truncate] ((y.last_line + 1) as u32)
            },
            None => 0,
        },
    }
}

fn emit_std_section(
    lines: &[&str],
    groups: &Vec<ImportGroup>,
    stdlib_from: &Vec<(String, Vec<String>)>,
    stdlib_bare: &Vec<String>,
    tp_from: &Vec<(String, Vec<String>)>,
    tp_bare: &Vec<String>,
    edits: &mut Vec<TextEdit>,
)
    requires
        forall|k: int| 0 <= k < groups@.len() ==> (#[trigger] groups@[k]).last_line < lines@.len(),
    ensures
        edit_views(final(edits)@) == edit_views(old(edits)@) + std_edits(
            str_views(lines@),
            Classified {
                stdlib_from: from_views(stdlib_from@),
                tp_from: from_views(tp_from@),
                stdlib_bare: string_views(stdlib_bare@),
                tp_bare: string_views(tp_bare@),
                seen: Seq::empty(),
            },
            groups@,
        ),
{
    let nl = lines.len();
    if !(stdlib_from.len() > 0 || stdlib_bare.len() > 0) {
        assert(edit_views(edits@) =~= edit_views(old(edits)@) + Seq::<(Range, Seq<char>)>::empty());
        return;
    }
    let last_stdlib_group = last_group_of_kind(groups, ImportKind::Stdlib);
    let first_tp_group = first_group_of_kind(groups, ImportKind::ThirdParty);
    proof {
        lemma_group_bound(groups@, ImportKind::Stdlib, lines@.len() as int);
        lemma_group_bound(groups@, ImportKind::ThirdParty, lines@.len() as int);
    }
    let fallback_line = group_fallback(last_stdlib_group, first_tp_group, true);
    let will = will_insert_exec(lines, stdlib_from, stdlib_bare);
    let ghost e0 = edit_views(edits@);
    emit_kind_import_edits(lines, stdlib_from, stdlib_bare, last_stdlib_group, fallback_line, edits);
    if will && last_stdlib_group.is_none() && first_tp_group.is_some() {
        let ghost before = edit_views(edits@);
        edits.push(separator_edit(fallback_line));
        assert(edit_views(edits@) =~= before.push(separator(fallback_line)));
    }
    assert(edit_views(edits@) =~= edit_views(old(edits)@) + std_edits(
        str_views(lines@),
        Classified {
            stdlib_from: from_views(stdlib_from@),
            tp_from: from_views(tp_from@),
            stdlib_bare: string_views(stdlib_bare@),
            tp_bare: string_views(tp_bare@),
            seen: Seq::empty(),
        },
        groups@,
    ));
}

fn emit_tp_section(
    lines: &[&str],
    groups: &Vec<ImportGroup>,
    stdlib_from: &Vec<(String, Vec<String>)>,
    stdlib_bare: &Vec<String>,
    tp_from: &Vec<(String, Vec<String>)>,
    tp_bare: &Vec<String>,
    edits: &mut Vec<TextEdit>,
)
    requires
        forall|k: int| 0 <= k < groups@.len() ==> (#[trigger] groups@[k]).last_line < lines@.len(),
    ensures
        edit_views(final(edits)@) == edit_views(old(edits)@) + tp_edits(
            str_views(lines@),
            Classified {
                stdlib_from: from_views(stdlib_from@),
                tp_from: from_views(tp_from@),
                stdlib_bare: string_views(stdlib_bare@),
                tp_bare: string_views(tp_bare@),
                seen: Seq::empty(),
            },
            groups@,
        ),
{
    let nl = lines.len();
    if !(tp_from.len() > 0 || tp_bare.len() > 0) {
        assert(edit_views(edits@) =~= edit_views(old(edits)@) + Seq::<(Range, Seq<char>)>::empty());
        return;
    }
    let last_stdlib_group = last_group_of_kind(groups, ImportKind::Stdlib);
    let last_tp_group = last_group_of_kind(groups, ImportKind::ThirdParty);
    proof {
        lemma_group_bound(groups@, ImportKind::Stdlib, lines@.len() as int);
        lemma_group_bound(groups@, ImportKind::ThirdParty, lines@.len() as int);
    }
    let fallback_line = group_fallback(last_tp_group, last_stdlib_group, false);
    let will_std = will_insert_exec(lines, stdlib_from, stdlib_bare);
    let will_tp = will_insert_exec(lines, tp_from, tp_bare);
    let ghost e0 = edit_views(edits@);
    if will_tp && last_tp_group.is_none() && (last_stdlib_group.is_some() || will_std) {
        let ghost before = edit_views(edits@);
        edits.push(separator_edit(fallback_line));
        assert(edit_views(edits@) =~= before.push(separator(fallback_line)));
    }
    let ghost e1 = edit_views(edits@);
    emit_kind_import_edits(lines, tp_from, tp_bare, last_tp_group, fallback_line, edits);
    assert(edit_views(edits@) =~= edit_views(old(edits)@) + tp_edits(
        str_views(lines@),
        Classified {
            stdlib_from: from_views(stdlib_from@),
            tp_from: from_views(tp_from@),
            stdlib_bare: string_views(stdlib_bare@),
            tp_bare: string_views(tp_bare@),
            seen: Seq::empty(),
        },
        groups@,
    ));
}

/// The edits that add the imports `specs` to a file with lines `lines`,
/// isort-aware: imports whose name is in `existing_imports` (or repeats an
/// earlier one) are skipped; from-imports are merged into an existing
/// single-line `from <module> import` when there is one; new lines go, in
/// sorted position, into the last standard-library group or the last
/// third-party group, and a new group is set off by a blank line.
pub fn build_import_edits(lines: &[&str], specs: &[&TypeImportSpec], existing_imports: &[String]) -> (r:
    Vec<TextEdit>)
    ensures
        edit_views(r@) == import_edits(str_views(lines@), spec_views(specs@), string_views(existing_imports@)),
{
    let ghost ls = str_views(lines@);
    let groups = parse_import_groups(lines);
    let (stdlib_from, tp_from, stdlib_bare, tp_bare) = classify_specs(specs, existing_imports);
    let ghost c = classify_all(spec_views(specs@), string_views(existing_imports@));
    let mut edits: Vec<TextEdit> = Vec::new();
    emit_std_section(lines, &groups, &stdlib_from, &stdlib_bare, &tp_from, &tp_bare, &mut edits);
    emit_tp_section(lines, &groups, &stdlib_from, &stdlib_bare, &tp_from, &tp_bare, &mut edits);
    proof {
        let c2 = Classified {
            stdlib_from: from_views(stdlib_from@),
            tp_from: from_views(tp_from@),
            stdlib_bare: string_views(stdlib_bare@),
            tp_bare: string_views(tp_bare@),
            seen: Seq::empty(),
        };
        assert(std_edits(ls, c2, groups@) == std_edits(ls, c, groups@));
        assert(tp_edits(ls, c2, groups@) == tp_edits(ls, c, groups@));
    }
    assert(edit_views(edits@) =~= import_edits(ls, spec_views(specs@), string_views(existing_imports@)));
    edits
}

} // verus!
