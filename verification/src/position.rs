//! What fixture the cursor points at: a usage resolved to its definition, a
//! definition's own name, or just the fixture's name. Positions are the
//! editor's: 0-based lines and character offsets; the database records
//! 1-based lines.
use vstd::prelude::*;

use crate::db::{files_listing, first_at_line, named, usages_in, FixtureDatabase};
use crate::resolver::closest;
use crate::text::{chars_eq, chars_of, lines, lines_of, string_from_chars, views};
use crate::completion::word_at;
use crate::types::{def_views, usage_views, DefinitionView, FixtureDefinition, FixtureUsage, UsageView};

verus! {

/// Line `t` (0-based) of `content`, split as `str::lines` splits it.
pub open spec fn nth_line(content: Seq<char>, t: int) -> Option<Seq<char>> {
    if 0 <= t < lines_of(content).len() {
        Some(lines_of(content)[t])
    } else {
        None
    }
}

/// Usage `u` is on 1-based line `line` and covers character `c`.
pub open spec fn usage_under(u: UsageView, line: int, c: int) -> bool {
    &&& u.line == line
    &&& u.start_char <= c < u.end_char
}

/// The first usage in `us`, from index `i` on, that is on line `line`,
/// covers character `c`, and (when `w` is given) is named `w`.
pub open spec fn first_usage_hit(us: Seq<UsageView>, line: int, w: Option<Seq<char>>, c: int, i: int) -> Option<int>
    decreases us.len() - i,
{
    if i < 0 || i >= us.len() {
        None
    } else if usage_under(us[i], line, c) && (w is None || us[i].name == w->0) {
        Some(i)
    } else {
        first_usage_hit(us, line, w, c, i + 1)
    }
}

/// The definition of `n` that file `f` sees, leaving out `excl`.
pub open spec fn closest_def(
    ds: Seq<DefinitionView>,
    fi: Seq<(Seq<char>, Seq<Seq<char>>)>,
    f: Seq<char>,
    n: Seq<char>,
    excl: Option<DefinitionView>,
) -> Option<DefinitionView> {
    match closest(named(ds, n), f, excl, files_listing(fi, n)) {
        Some(i) => Some(named(ds, n)[i]),
        None => None,
    }
}

pub open spec fn opt_def_view(d: Option<FixtureDefinition>) -> Option<DefinitionView> {
    match d {
        Some(x) => Some(x@),
        None => None,
    }
}

/// Where go-to-definition leads from 0-based line `line`, character `c` of
/// file `f` with text `content`: the word under the cursor must be a usage
/// recorded there; it resolves as pytest resolves it, except that a fixture
/// using the name it overrides resolves past itself.
pub open spec fn definition_under_cursor(
    ds: Seq<DefinitionView>,
    us: Seq<UsageView>,
    fi: Seq<(Seq<char>, Seq<Seq<char>>)>,
    f: Seq<char>,
    line: int,
    c: int,
    content: Seq<char>,
) -> Option<DefinitionView> {
    match nth_line(content, line) {
        None => None,
        Some(l) => match word_at(l, c) {
            None => None,
            Some(w) => match first_usage_hit(usages_in(us, f), line + 1, Some(w), c, 0) {
                None => None,
                Some(k) => {
                    let n = usages_in(us, f)[k].name;
                    match first_at_line(ds, f, (line + 1) as usize) {
                        Some(cur) => if ds[cur].name == w {
                            closest_def(ds, fi, f, n, Some(ds[cur]))
                        } else {
                            closest_def(ds, fi, f, n, None)
                        },
                        None => closest_def(ds, fi, f, n, None),
                    }
                },
            },
        },
    }
}

/// The first definition among `ds`, from index `i` on, in file `f` on line
/// `line` whose name covers character `c`.
pub open spec fn first_def_hit(ds: Seq<DefinitionView>, f: Seq<char>, line: int, c: int, i: int) -> Option<int>
    decreases ds.len() - i,
{
    if i < 0 || i >= ds.len() {
        None
    } else if ds[i].file_path == f && ds[i].line == line && ds[i].start_char <= c < ds[i].end_char {
        Some(i)
    } else {
        first_def_hit(ds, f, line, c, i + 1)
    }
}

/// What call hierarchy works on at the cursor: the definition a usage leads
/// to, or else the definition whose name the cursor is on.
pub open spec fn definition_or_usage_under_cursor(
    ds: Seq<DefinitionView>,
    us: Seq<UsageView>,
    fi: Seq<(Seq<char>, Seq<Seq<char>>)>,
    f: Seq<char>,
    line: int,
    c: int,
    content: Seq<char>,
) -> Option<DefinitionView> {
    match definition_under_cursor(ds, us, fi, f, line, c, content) {
        Some(d) => Some(d),
        None => match nth_line(content, line) {
            None => None,
            Some(l) => match word_at(l, c) {
                None => None,
                Some(w) => match first_def_hit(named(ds, w), f, line + 1, c, 0) {
                    Some(i) => Some(named(ds, w)[i]),
                    None => None,
                },
            },
        },
    }
}

/// A definition of `w` is recorded on line `line` of file `f`.
pub open spec fn defined_on_line(ds: Seq<DefinitionView>, f: Seq<char>, line: int, w: Seq<char>) -> bool {
    exists|i: int| 0 <= i < ds.len() && (#[trigger] ds[i]).file_path == f && ds[i].line == line && ds[i].name == w
}

/// The fixture name at the cursor: that of a usage covering it, or else the
/// word under it when a definition of that name sits on the line.
pub open spec fn fixture_name_under_cursor(
    ds: Seq<DefinitionView>,
    us: Seq<UsageView>,
    f: Seq<char>,
    line: int,
    c: int,
    content: Seq<char>,
) -> Option<Seq<char>> {
    match nth_line(content, line) {
        None => None,
        Some(l) => match first_usage_hit(usages_in(us, f), line + 1, None, c, 0) {
            Some(k) => Some(usages_in(us, f)[k].name),
            None => match word_at(l, c) {
                Some(w) => if defined_on_line(ds, f, line + 1, w) {
                    Some(w)
                } else {
                    None
                },
                None => None,
            },
        },
    }
}

/// Line `t` of `content`, if it has one.
fn line_of(content: &str, t: usize) -> (r: Option<String>)
    ensures
        match r {
            Some(l) => nth_line(content@, t as int) == Some(l@),
            None => nth_line(content@, t as int) is None,
        },
{
    let cs = chars_of(content);
    let ls = lines(cs.as_slice());
    if t < ls.len() {
        assert(views(ls@)[t as int] == ls@[t as int]@);
        Some(string_from_chars(ls[t].as_slice()))
    } else {
        None
    }
}

/// The first usage in `us` on line `line` covering character `c`, named `w`
/// when `w` is given.
fn find_usage_hit(us: &Vec<FixtureUsage>, line: usize, w: Option<&String>, c: usize) -> (r: Option<usize>)
    ensures
        match r {
            Some(k) => k < us@.len() && first_usage_hit(usage_views(us@), line as int, opt_str(w), c as int, 0)
                == Some(k as int),
            None => first_usage_hit(usage_views(us@), line as int, opt_str(w), c as int, 0) is None,
        },
{
    let ghost uv = usage_views(us@);
    let wc: Option<Vec<char>> = match w {
        Some(s) => Some(chars_of(s.as_str())),
        None => None,
    };
    let mut i: usize = 0;
    while i < us.len()
        invariant
            i <= uv.len(),
            uv == usage_views(us@),
            match wc {
                Some(x) => opt_str(w) == Some(x@),
                None => opt_str(w) is None,
            },
            first_usage_hit(uv, line as int, opt_str(w), c as int, 0) == first_usage_hit(
                uv,
                line as int,
                opt_str(w),
                c as int,
                i as int,
            ),
        decreases uv.len() - i,
    {
        let u = &us[i];
        assert(uv[i as int] == u@);
        let name_ok = match &wc {
            Some(x) => {
                let un = chars_of(u.name.as_str());
                chars_eq(un.as_slice(), x.as_slice())
            },
            None => true,
        };
        if u.line == line && u.start_char <= c && c < u.end_char && name_ok {
            return Some(i);
        }
        i = i + 1;
    }
    None
}

pub open spec fn opt_str(w: Option<&String>) -> Option<Seq<char>> {
    match w {
        Some(s) => Some(s@),
        None => None,
    }
}

impl FixtureDatabase {
    /// The definition that go-to-definition leads to from `line`,
    /// `character` (0-based) of `file_path`, whose text is `content`.
    pub fn find_fixture_definition(&self, file_path: &str, line: u32, character: u32, content: &str) -> (r:
        Option<FixtureDefinition>)
        requires
            line < u32::MAX,
        ensures
            opt_def_view(r) == definition_under_cursor(
                self.defs(),
                self.uses(),
                self.fimports(),
                file_path@,
                line as int,
                character as int,
                content@,
            ),
    {
        let target_line = (line + 1) as usize;
        let line_content = match line_of(content, line as usize) {
            Some(l) => l,
            None => return None,
        };
        let word = match self.extract_word_at_position(line_content.as_str(), character as usize) {
            Some(w) => w,
            None => return None,
        };
        let ghost w = word@;
        assert(nth_line(content@, line as int) == Some(line_content@));
        assert(word_at(line_content@, character as int) == Some(w));
        let current = self.get_fixture_definition_at_line(file_path, target_line);
        let usages = self.usages_for_file(file_path);
        assert(opt_str(Some(&word)) == Some(w));
        match find_usage_hit(&usages, target_line, Some(&word), character as usize) {
            None => None,
            Some(k) => {
                let usage = &usages[k];
                assert(usage_views(usages@)[k as int] == usage@);
                let ghost n = usage.name@;
                assert(n == usages_in(self.uses(), file_path@)[k as int].name);
                match current {
                    Some(cur) => {
                        let cn = chars_of(cur.name.as_str());
                        let wn = chars_of(word.as_str());
                        if chars_eq(cn.as_slice(), wn.as_slice()) {
                            let r = self.find_closest_definition_excluding(file_path, usage.name.as_str(), Some(&cur));
                            assert(crate::resolver::excl_view(Some(&cur)) == Some(cur@));
                            assert(opt_def_view(r) == closest_def(self.defs(), self.fimports(), file_path@, n, Some(cur@)));
                            r
                        } else {
                            let r = self.find_closest_definition(file_path, usage.name.as_str());
                            assert(opt_def_view(r) == closest_def(self.defs(), self.fimports(), file_path@, n, None));
                            r
                        }
                    },
                    None => {
                        let r = self.find_closest_definition(file_path, usage.name.as_str());
                        assert(opt_def_view(r) == closest_def(self.defs(), self.fimports(), file_path@, n, None));
                        r
                    },
                }
            },
        }
    }

    /// What call hierarchy works on at `line`, `character` (0-based) of
    /// `file_path`: the definition a usage there leads to, or else the
    /// definition whose name the cursor is on.
    pub fn find_fixture_or_definition_at_position(
        &self,
        file_path: &str,
        line: u32,
        character: u32,
        content: &str,
    ) -> (r: Option<FixtureDefinition>)
        requires
            line < u32::MAX,
        ensures
            opt_def_view(r) == definition_or_usage_under_cursor(
                self.defs(),
                self.uses(),
                self.fimports(),
                file_path@,
                line as int,
                character as int,
                content@,
            ),
    {
        match self.find_fixture_definition(file_path, line, character, content) {
            Some(d) => return Some(d),
            None => {},
        }
        let target_line = (line + 1) as usize;
        let line_content = match line_of(content, line as usize) {
            Some(l) => l,
            None => return None,
        };
        let word = match self.extract_word_at_position(line_content.as_str(), character as usize) {
            Some(w) => w,
            None => return None,
        };
        assert(nth_line(content@, line as int) == Some(line_content@));
        assert(word_at(line_content@, character as int) == Some(word@));
        let defs = self.definitions_named(word.as_str());
        let ghost dv = def_views(defs@);
        let f = chars_of(file_path);
        let c = character as usize;
        let ghost goal = definition_or_usage_under_cursor(
            self.defs(),
            self.uses(),
            self.fimports(),
            file_path@,
            line as int,
            character as int,
            content@,
        );
        assert(goal == match first_def_hit(dv, file_path@, line as int + 1, character as int, 0) {
            Some(i) => Some(dv[i]),
            None => None,
        });
        let mut i: usize = 0;
        while i < defs.len()
            invariant
                goal == definition_or_usage_under_cursor(
                    self.defs(),
                    self.uses(),
                    self.fimports(),
                    file_path@,
                    line as int,
                    character as int,
                    content@,
                ),
                goal == match first_def_hit(dv, file_path@, line as int + 1, character as int, 0) {
                    Some(i) => Some(dv[i]),
                    None => None,
                },
                i <= dv.len(),
                dv == def_views(defs@),
                dv == named(self.defs(), word@),
                target_line as int == line as int + 1,
                c as int == character as int,
                f@ == file_path@,
                first_def_hit(dv, f@, target_line as int, c as int, 0) == first_def_hit(
                    dv,
                    f@,
                    target_line as int,
                    c as int,
                    i as int,
                ),
            decreases dv.len() - i,
        {
            let d = &defs[i];
            assert(dv[i as int] == d@);
            let fp = chars_of(d.file_path.as_str());
            if chars_eq(fp.as_slice(), f.as_slice()) && d.line == target_line && d.start_char <= c && c
                < d.end_char {
                assert(first_def_hit(dv, f@, target_line as int, c as int, i as int) == Some(i as int));
                assert(dv == named(self.defs(), word@));
                assert(target_line as int == line as int + 1);
                assert(c as int == character as int);
                let r = d.duplicate();
                assert(opt_def_view(Some(r)) == Some(dv[i as int]));
                return Some(r);
            }
            i = i + 1;
        }
        None
    }

    /// The fixture name at `line`, `character` (0-based) of `file_path`:
    /// that of a usage there, or of a definition whose name is under the
    /// cursor.
    pub fn find_fixture_at_position(&self, file_path: &str, line: u32, character: u32, content: &str) -> (r:
        Option<String>)
        requires
            line < u32::MAX,
        ensures
            match r {
                Some(n) => fixture_name_under_cursor(
                    self.defs(),
                    self.uses(),
                    file_path@,
                    line as int,
                    character as int,
                    content@,
                ) == Some(n@),
                None => fixture_name_under_cursor(
                    self.defs(),
                    self.uses(),
                    file_path@,
                    line as int,
                    character as int,
                    content@,
                ) is None,
            },
    {
        let target_line = (line + 1) as usize;
        let line_content = match line_of(content, line as usize) {
            Some(l) => l,
            None => return None,
        };
        assert(nth_line(content@, line as int) == Some(line_content@));
        let word_at_cursor = self.extract_word_at_position(line_content.as_str(), character as usize);
        let usages = self.usages_for_file(file_path);
        assert(opt_str(None) is None);
        match find_usage_hit(&usages, target_line, None, character as usize) {
            Some(k) => {
                assert(usage_views(usages@)[k as int] == usages@[k as int]@);
                let n = usages[k].name.clone();
                assert(n@ == usages_in(self.uses(), file_path@)[k as int].name);
                return Some(n);
            },
            None => {},
        }
        let word = match word_at_cursor {
            Some(w) => w,
            None => return None,
        };
        assert(word_at(line_content@, character as int) == Some(word@));
        let wn = chars_of(word.as_str());
        let f = chars_of(file_path);
        let ghost ds = self.defs();
        let ghost before = fixture_name_under_cursor(
            ds,
            self.uses(),
            file_path@,
            line as int,
            character as int,
            content@,
        );
        assert(before == (if defined_on_line(ds, file_path@, line as int + 1, word@) {
            Some(word@)
        } else {
            None
        }));
        let mut i: usize = 0;
        while i < self.definitions.len()
            invariant
                i <= ds.len(),
                ds == self.defs(),
                f@ == file_path@,
                wn@ == word@,
                target_line as int == line as int + 1,
                before == fixture_name_under_cursor(
                    ds,
                    self.uses(),
                    file_path@,
                    line as int,
                    character as int,
                    content@,
                ),
                before == (if defined_on_line(ds, file_path@, line as int + 1, word@) {
                    Some(word@)
                } else {
                    None
                }),
                forall|j: int|
                    0 <= j < i ==> !((#[trigger] ds[j]).file_path == f@ && ds[j].line == target_line && ds[j].name
                        == wn@),
            decreases ds.len() - i,
        {
            let d = &self.definitions[i];
            assert(ds[i as int] == d@);
            let fp = chars_of(d.file_path.as_str());
            let dn = chars_of(d.name.as_str());
            if chars_eq(fp.as_slice(), f.as_slice()) && d.line == target_line && chars_eq(dn.as_slice(), wn.as_slice()) {
                assert(defined_on_line(ds, file_path@, target_line as int, word@));
                return Some(word);
            }
            i = i + 1;
        }
        None
    }
}

} // verus!
