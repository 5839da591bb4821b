//! Find-references: the definition the cursor leads to, followed by every
//! usage that resolves to it.
use vstd::prelude::*;

use crate::db::{first_at_line, named, resolving_to, usages_named, FixtureDatabase};
use crate::imports::{Position, Range};
use crate::lsp::{create_point_range, create_range, internal_line_to_lsp};
use crate::position::{definition_under_cursor, fixture_name_under_cursor, opt_def_view};
use crate::types::{usage_views, DefinitionView, FixtureDefinition, FixtureUsage, UsageView};

verus! {

/// A range in a file.
#[derive(Debug)]
pub struct Location {
    pub file_path: String,
    pub range: Range,
}

pub struct LocationView {
    pub file_path: Seq<char>,
    pub range: Range,
}

impl View for Location {
    type V = LocationView;

    open spec fn view(&self) -> LocationView {
        LocationView { file_path: self.file_path@, range: self.range }
    }
}

pub open spec fn location_views(v: Seq<Location>) -> Seq<LocationView> {
    v.map_values(|l: Location| l@)
}

/// A recorded (1-based) line as an editor (0-based) line.
pub open spec fn editor_line(line: usize) -> u32 {
    (if line == 0 {
        0
    } else {
        line - 1
    }) as u32
}

/// Where a usage is, as the editor sees it.
pub open spec fn usage_location(u: UsageView) -> LocationView {
    LocationView {
        file_path: u.file_path,
        range: Range {
            start: Position { line: editor_line(u.line), character: u.start_char as u32 },
            end: Position { line: editor_line(u.line), character: u.end_char as u32 },
        },
    }
}

/// Where a definition is: the start of its line.
pub open spec fn definition_location(d: DefinitionView) -> LocationView {
    LocationView {
        file_path: d.file_path,
        range: Range {
            start: Position { line: editor_line(d.line), character: 0 },
            end: Position { line: editor_line(d.line), character: 0 },
        },
    }
}

/// Usage `u` stands on the line of definition `d`.
pub open spec fn on_definition_line(u: UsageView, d: Option<DefinitionView>) -> bool {
    match d {
        Some(dd) => u.file_path == dd.file_path && u.line == dd.line,
        None => false,
    }
}

/// The locations of the usages `us`, leaving out those on the line of `d`.
pub open spec fn usage_locations(us: Seq<UsageView>, d: Option<DefinitionView>) -> Seq<LocationView>
    decreases us.len(),
{
    if us.len() == 0 {
        Seq::empty()
    } else {
        let r = usage_locations(us.drop_last(), d);
        if on_definition_line(us.last(), d) {
            r
        } else {
            r.push(usage_location(us.last()))
        }
    }
}

/// The usages to list and the definition to lead with, for the cursor at
/// `line`, `c` (0-based) of file `f` with text `content`: those resolving to
/// the definition a usage there leads to, or to the definition on the
/// cursor's line; failing both, every usage of the name under the cursor.
pub open spec fn reference_set(
    ds: Seq<DefinitionView>,
    us: Seq<UsageView>,
    fi: Seq<(Seq<char>, Seq<Seq<char>>)>,
    f: Seq<char>,
    line: int,
    c: int,
    content: Seq<char>,
) -> Option<(Seq<UsageView>, Option<DefinitionView>)> {
    match fixture_name_under_cursor(ds, us, f, line, c, content) {
        None => None,
        Some(n) => match definition_under_cursor(ds, us, fi, f, line, c, content) {
            Some(d) => Some((resolving_to(usages_named(us, d.name), ds, fi, d), Some(d))),
            None => match first_at_line(named(ds, n), f, (line + 1) as usize) {
                Some(i) => {
                    let d = named(ds, n)[i];
                    Some((resolving_to(usages_named(us, d.name), ds, fi, d), Some(d)))
                },
                None => Some((usages_named(us, n), None)),
            },
        },
    }
}

/// The answer to find-references: the definition first, then the usages not
/// on its line; nothing where there is neither.
pub open spec fn references_at(
    ds: Seq<DefinitionView>,
    us: Seq<UsageView>,
    fi: Seq<(Seq<char>, Seq<Seq<char>>)>,
    f: Seq<char>,
    line: int,
    c: int,
    content: Seq<char>,
) -> Option<Seq<LocationView>> {
    match reference_set(ds, us, fi, f, line, c, content) {
        None => None,
        Some((rs, d)) => if rs.len() == 0 && d is None {
            None
        } else {
            match d {
                Some(dd) => Some(seq![definition_location(dd)] + usage_locations(rs, d)),
                None => Some(usage_locations(rs, d)),
            }
        },
    }
}

fn usage_locations_exec(refs: &Vec<FixtureUsage>, def: &Option<FixtureDefinition>, out: &mut Vec<Location>)
    ensures
        location_views(final(out)@) == location_views(old(out)@) + usage_locations(
            usage_views(refs@),
            opt_def_view(*def),
        ),
{
    let ghost us = usage_views(refs@);
    let ghost d = opt_def_view(*def);
    let ghost start = location_views(out@);
    let mut i: usize = 0;
    while i < refs.len()
        invariant
            i <= us.len(),
            us == usage_views(refs@),
            d == opt_def_view(*def),
            location_views(out@) == start + usage_locations(us.take(i as int), d),
        decreases us.len() - i,
    {
        let u = &refs[i];
        assert(us[i as int] == u@);
        assert(us.take(i + 1).drop_last() =~= us.take(i as int));
        assert(us.take(i + 1).last() == u@);
        let skip = match def {
            Some(dd) => u.file_path == dd.file_path && u.line == dd.line,
            None => false,
        };
        if !skip {
            let l = internal_line_to_lsp(u.line);
            let sc = #[verifier::truncate] (u.start_char as u32);
            let ec = #[verifier::truncate] (u.end_char as u32);
            let ghost before = location_views(out@);
            out.push(Location { file_path: u.file_path.clone(), range: create_range(l, sc, l, ec) });
            assert(location_views(out@) =~= before.push(usage_location(u@)));
        }
        i = i + 1;
    }
    assert(us.take(us.len() as int) =~= us);
}

impl FixtureDatabase {
    /// Find-references at `line`, `character` (0-based) of `file_path`,
    /// whose text is `content`.
    pub fn reference_locations(&self, file_path: &str, line: u32, character: u32, content: &str) -> (r:
        Option<Vec<Location>>)
        requires
            line < u32::MAX,
        ensures
            match r {
                Some(v) => references_at(
                    self.defs(),
                    self.uses(),
                    self.fimports(),
                    file_path@,
                    line as int,
                    character as int,
                    content@,
                ) == Some(location_views(v@)),
                None => references_at(
                    self.defs(),
                    self.uses(),
                    self.fimports(),
                    file_path@,
                    line as int,
                    character as int,
                    content@,
                ) is None,
            },
    {
        let name = match self.find_fixture_at_position(file_path, line, character, content) {
            Some(n) => n,
            None => return None,
        };
        let target = self.find_fixture_definition(file_path, line, character, content);
        let (refs, def) = match target {
            Some(d) => {
                let rs = self.find_references_for_definition(&d);
                (rs, Some(d))
            },
            None => match self.get_definition_at_line(file_path, (line + 1) as usize, name.as_str()) {
                Some(d) => {
                    let rs = self.find_references_for_definition(&d);
                    (rs, Some(d))
                },
                None => {
                    let rs = self.find_fixture_references(name.as_str());
                    (rs, None)
                },
            },
        };
        let ghost set = reference_set(
            self.defs(),
            self.uses(),
            self.fimports(),
            file_path@,
            line as int,
            character as int,
            content@,
        );
        assert(set == Some((usage_views(refs@), opt_def_view(def))));
        if refs.len() == 0 && def.is_none() {
            assert(usage_views(refs@).len() == 0);
            return None;
        }
        let mut locs: Vec<Location> = Vec::new();
        match &def {
            Some(d) => {
                locs.push(
                    Location {
                        file_path: d.file_path.clone(),
                        range: create_point_range(internal_line_to_lsp(d.line), 0),
                    },
                );
                assert(location_views(locs@) =~= seq![definition_location(d@)]);
            },
            None => {
                assert(location_views(locs@) =~= Seq::<LocationView>::empty());
            },
        }
        usage_locations_exec(&refs, &def, &mut locs);
        proof {
            if def is None {
                assert(location_views(locs@) =~= usage_locations(usage_views(refs@), opt_def_view(def)));
            }
        }
        Some(locs)
    }
}

} // verus!
