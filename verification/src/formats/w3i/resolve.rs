//! Resolving `TRIGSTR_<id>` references in map information.
use super::force::ForceView;
use super::player::PlayerView;
use super::random_tables::{RandomItemTableView, RandomUnitTableView};
use super::force::Force;
use super::player::Player;
use super::random_tables::{RandomItemTable, RandomUnitTable};
use super::{HeadView, ScreensView, SectionsView, W3iView, War3MapW3i};
use crate::formats::wts::{trigstr, trigstr_id, War3MapWts};
use crate::reader::views;
use vstd::prelude::*;

verus! {

/// `s` with a `TRIGSTR_<id>` reference replaced by the table's string for
/// that id; unchanged when it is no reference or the id is missing.
pub open spec fn resolve_text(m: Map<i32, Seq<char>>, s: Seq<char>) -> Seq<char> {
    match trigstr(s) {
        Some(id) => if m.contains_key(id) {
            m[id]
        } else {
            s
        },
        None => s,
    }
}

/// [`resolve_text`] on an optional string.
pub open spec fn resolve_opt(m: Map<i32, Seq<char>>, s: Option<Seq<char>>) -> Option<Seq<char>> {
    match s {
        Some(s) => Some(resolve_text(m, s)),
        None => None,
    }
}

/// The table `m`, and — when `missing` is given — that text for every id the
/// table lacks.
pub open spec fn table_or(m: Map<i32, Seq<char>>, missing: Option<Seq<char>>) -> Map<i32, Seq<char>> {
    match missing {
        None => m,
        Some(f) => Map::new(|id: i32| true, |id: i32| if m.contains_key(id) { m[id] } else { f }),
    }
}

/// The optional view of an optional string slice.
pub open spec fn opt_text(o: Option<&str>) -> Option<Seq<char>> {
    match o {
        Some(s) => Some(s@),
        None => None,
    }
}

/// The map information with every display string resolved against `m`: the
/// name, author, description and recommended players, the loading and prologue
/// screen texts, and the names of players, forces and random tables.
pub open spec fn resolved_w3i(w: W3iView, m: Map<i32, Seq<char>>) -> W3iView {
    W3iView {
        head: HeadView {
            name: resolve_text(m, w.head.name),
            author: resolve_text(m, w.head.author),
            description: resolve_text(m, w.head.description),
            recommended_players: resolve_text(m, w.head.recommended_players),
            ..w.head
        },
        screens: ScreensView {
            loading_screen_text: resolve_opt(m, w.screens.loading_screen_text),
            loading_screen_title: resolve_opt(m, w.screens.loading_screen_title),
            loading_screen_subtitle: resolve_opt(m, w.screens.loading_screen_subtitle),
            prologue_screen_text: resolve_opt(m, w.screens.prologue_screen_text),
            prologue_screen_title: resolve_opt(m, w.screens.prologue_screen_title),
            prologue_screen_subtitle: resolve_opt(m, w.screens.prologue_screen_subtitle),
            ..w.screens
        },
        sections: SectionsView {
            players: w.sections.players.map_values(
                |p: PlayerView| PlayerView { name: resolve_text(m, p.name), ..p },
            ),
            forces: w.sections.forces.map_values(|f: ForceView| ForceView { name: resolve_text(m, f.name), ..f }),
            random_unit_tables: w.sections.random_unit_tables.map_values(
                |t: RandomUnitTableView| RandomUnitTableView { name: resolve_text(m, t.name), ..t },
            ),
            random_item_tables: w.sections.random_item_tables.map_values(
                |t: RandomItemTableView| RandomItemTableView { name: resolve_text(m, t.name), ..t },
            ),
            ..w.sections
        },
        ..w
    }
}

/// Whether `after` is what a display string `before` must become against the
/// table `m`: the table's string where `before` is a `TRIGSTR_<id>`
/// reference to an id the table holds, `before` itself otherwise.
pub open spec fn resolved_from(m: Map<i32, Seq<char>>, before: Seq<char>, after: Seq<char>) -> bool {
    if trigstr(before) is Some && m.contains_key(trigstr(before)->Some_0) {
        after == m[trigstr(before)->Some_0]
    } else {
        after == before
    }
}

/// [`resolved_from`] on an optional display string: absent stays absent.
pub open spec fn opt_resolved_from(m: Map<i32, Seq<char>>, before: Option<Seq<char>>, after: Option<Seq<char>>) -> bool {
    match before {
        Some(b) => after is Some && resolved_from(m, b, after->Some_0),
        None => after is None,
    }
}

/// Resolving map information against a table resolves every display string
/// it holds (the name, author, description and recommended players, the six
/// loading and prologue screen texts, and the name of every player, force
/// and random table) and changes nothing else.
pub proof fn lemma_every_display_string_resolves(w: W3iView, m: Map<i32, Seq<char>>)
    ensures
        ({
            let r = resolved_w3i(w, m);
            &&& resolved_from(m, w.head.name, r.head.name)
            &&& resolved_from(m, w.head.author, r.head.author)
            &&& resolved_from(m, w.head.description, r.head.description)
            &&& resolved_from(m, w.head.recommended_players, r.head.recommended_players)
            &&& r.head == HeadView {
                name: r.head.name,
                author: r.head.author,
                description: r.head.description,
                recommended_players: r.head.recommended_players,
                ..w.head
            }
            &&& opt_resolved_from(m, w.screens.loading_screen_text, r.screens.loading_screen_text)
            &&& opt_resolved_from(m, w.screens.loading_screen_title, r.screens.loading_screen_title)
            &&& opt_resolved_from(m, w.screens.loading_screen_subtitle, r.screens.loading_screen_subtitle)
            &&& opt_resolved_from(m, w.screens.prologue_screen_text, r.screens.prologue_screen_text)
            &&& opt_resolved_from(m, w.screens.prologue_screen_title, r.screens.prologue_screen_title)
            &&& opt_resolved_from(m, w.screens.prologue_screen_subtitle, r.screens.prologue_screen_subtitle)
            &&& r.screens.game_data_set == w.screens.game_data_set
            &&& r.screens.loading_screen_index == w.screens.loading_screen_index
            &&& r.screens.prologue_screen_model == w.screens.prologue_screen_model
            &&& r.geometry == w.geometry
            &&& r.environment == w.environment
            &&& r.sections.skipped_optional_sections == w.sections.skipped_optional_sections
            &&& r.sections.upgrade_availability_changes == w.sections.upgrade_availability_changes
            &&& r.sections.tech_availability_changes == w.sections.tech_availability_changes
            &&& r.sections.players.len() == w.sections.players.len()
            &&& forall|i: int|
                0 <= i < w.sections.players.len() ==> resolved_from(m, w.sections.players[i].name, #[trigger] r.sections.players[i].name)
                    && r.sections.players[i] == (PlayerView { name: r.sections.players[i].name, ..w.sections.players[i] })
            &&& r.sections.forces.len() == w.sections.forces.len()
            &&& forall|i: int|
                0 <= i < w.sections.forces.len() ==> resolved_from(m, w.sections.forces[i].name, #[trigger] r.sections.forces[i].name)
                    && r.sections.forces[i] == (ForceView { name: r.sections.forces[i].name, ..w.sections.forces[i] })
            &&& r.sections.random_unit_tables.len() == w.sections.random_unit_tables.len()
            &&& forall|i: int|
                0 <= i < w.sections.random_unit_tables.len() ==> resolved_from(
                    m,
                    w.sections.random_unit_tables[i].name,
                    #[trigger] r.sections.random_unit_tables[i].name,
                ) && r.sections.random_unit_tables[i] == (RandomUnitTableView {
                    name: r.sections.random_unit_tables[i].name,
                    ..w.sections.random_unit_tables[i]
                })
            &&& r.sections.random_item_tables.len() == w.sections.random_item_tables.len()
            &&& forall|i: int|
                0 <= i < w.sections.random_item_tables.len() ==> resolved_from(
                    m,
                    w.sections.random_item_tables[i].name,
                    #[trigger] r.sections.random_item_tables[i].name,
                ) && r.sections.random_item_tables[i] == (RandomItemTableView {
                    name: r.sections.random_item_tables[i].name,
                    ..w.sections.random_item_tables[i]
                })
        }),
{
}

/// Replace `s` by its resolution against `strings`; a reference to an id the
/// table lacks becomes `missing` when that is given, and stays otherwise.
pub fn resolve_in(s: &mut String, strings: &War3MapWts, missing: Option<&str>)
    ensures
        final(s)@ == resolve_text(table_or(strings@, opt_text(missing)), old(s)@),
{
    let found = match trigstr_id(s.as_str()) {
        Some(id) => match strings.get(id) {
            Some(v) => Some(String::from_str(v)),
            None => match missing {
                Some(f) => Some(String::from_str(f)),
                None => None,
            },
        },
        None => None,
    };
    if let Some(v) = found {
        *s = v;
    }
}

fn resolve_in_opt(s: &mut Option<String>, strings: &War3MapWts, missing: Option<&str>)
    ensures
        crate::reader::opt_view(*final(s)) == resolve_opt(
            table_or(strings@, opt_text(missing)),
            crate::reader::opt_view(*old(s)),
        ),
{
    match s {
        Some(inner) => resolve_in(inner, strings, missing),
        None => {},
    }
}

fn resolve_players(v: &mut Vec<Player>, strings: &War3MapWts, missing: Option<&str>)
    ensures
        views(final(v)@) == views(old(v)@).map_values(|x: PlayerView| PlayerView { name: resolve_text(table_or(strings@, opt_text(missing)), x.name), ..x }),
{
    let ghost v0 = v@;
    let ghost m = table_or(strings@, opt_text(missing));
    let n = v.len();
    let mut i: usize = 0;
    while i < n
        invariant
            n == v0.len(),
            v@.len() == n,
            i <= n,
            m == table_or(strings@, opt_text(missing)),
            forall|j: int| 0 <= j < i ==> #[trigger] v@[j]@ == (PlayerView { name: resolve_text(m, v0[j]@.name), ..v0[j]@ }),
            forall|j: int| i <= j < n ==> #[trigger] v@[j] == v0[j],
        decreases n - i,
    {
        resolve_in(&mut v[i].name, strings, missing);
        i += 1;
    }
    assert(views(v@) =~= views(v0).map_values(|x: PlayerView| PlayerView { name: resolve_text(m, x.name), ..x }));
}

fn resolve_forces(v: &mut Vec<Force>, strings: &War3MapWts, missing: Option<&str>)
    ensures
        views(final(v)@) == views(old(v)@).map_values(|x: ForceView| ForceView { name: resolve_text(table_or(strings@, opt_text(missing)), x.name), ..x }),
{
    let ghost v0 = v@;
    let ghost m = table_or(strings@, opt_text(missing));
    let n = v.len();
    let mut i: usize = 0;
    while i < n
        invariant
            n == v0.len(),
            v@.len() == n,
            i <= n,
            m == table_or(strings@, opt_text(missing)),
            forall|j: int| 0 <= j < i ==> #[trigger] v@[j]@ == (ForceView { name: resolve_text(m, v0[j]@.name), ..v0[j]@ }),
            forall|j: int| i <= j < n ==> #[trigger] v@[j] == v0[j],
        decreases n - i,
    {
        resolve_in(&mut v[i].name, strings, missing);
        i += 1;
    }
    assert(views(v@) =~= views(v0).map_values(|x: ForceView| ForceView { name: resolve_text(m, x.name), ..x }));
}

fn resolve_unit_tables(v: &mut Vec<RandomUnitTable>, strings: &War3MapWts, missing: Option<&str>)
    ensures
        views(final(v)@) == views(old(v)@).map_values(|x: RandomUnitTableView| RandomUnitTableView { name: resolve_text(table_or(strings@, opt_text(missing)), x.name), ..x }),
{
    let ghost v0 = v@;
    let ghost m = table_or(strings@, opt_text(missing));
    let n = v.len();
    let mut i: usize = 0;
    while i < n
        invariant
            n == v0.len(),
            v@.len() == n,
            i <= n,
            m == table_or(strings@, opt_text(missing)),
            forall|j: int| 0 <= j < i ==> #[trigger] v@[j]@ == (RandomUnitTableView { name: resolve_text(m, v0[j]@.name), ..v0[j]@ }),
            forall|j: int| i <= j < n ==> #[trigger] v@[j] == v0[j],
        decreases n - i,
    {
        resolve_in(&mut v[i].name, strings, missing);
        i += 1;
    }
    assert(views(v@) =~= views(v0).map_values(|x: RandomUnitTableView| RandomUnitTableView { name: resolve_text(m, x.name), ..x }));
}

fn resolve_item_tables(v: &mut Vec<RandomItemTable>, strings: &War3MapWts, missing: Option<&str>)
    ensures
        views(final(v)@) == views(old(v)@).map_values(|x: RandomItemTableView| RandomItemTableView { name: resolve_text(table_or(strings@, opt_text(missing)), x.name), ..x }),
{
    let ghost v0 = v@;
    let ghost m = table_or(strings@, opt_text(missing));
    let n = v.len();
    let mut i: usize = 0;
    while i < n
        invariant
            n == v0.len(),
            v@.len() == n,
            i <= n,
            m == table_or(strings@, opt_text(missing)),
            forall|j: int| 0 <= j < i ==> #[trigger] v@[j]@ == (RandomItemTableView { name: resolve_text(m, v0[j]@.name), ..v0[j]@ }),
            forall|j: int| i <= j < n ==> #[trigger] v@[j] == v0[j],
        decreases n - i,
    {
        resolve_in(&mut v[i].name, strings, missing);
        i += 1;
    }
    assert(views(v@) =~= views(v0).map_values(|x: RandomItemTableView| RandomItemTableView { name: resolve_text(m, x.name), ..x }));
}

impl War3MapW3i {
    /// Resolve the `TRIGSTR_*` references among the display strings in place;
    /// a reference the table cannot resolve is left as it is.
    pub fn resolve_trigger_strings(&mut self, strings: &War3MapWts)
        ensures
            final(self)@ == resolved_w3i(old(self)@, strings@),
    {
        self.resolve_strings(strings, None);
    }

    /// Resolve the `TRIGSTR_*` references among the display strings in place;
    /// a reference to an id the table lacks becomes `missing` when that is
    /// given.
    pub(crate) fn resolve_strings(&mut self, strings: &War3MapWts, missing: Option<&str>)
        ensures
            final(self)@ == resolved_w3i(old(self)@, table_or(strings@, opt_text(missing))),
    {
        resolve_in(&mut self.name, strings, missing);
        resolve_in(&mut self.author, strings, missing);
        resolve_in(&mut self.description, strings, missing);
        resolve_in(&mut self.recommended_players, strings, missing);
        resolve_in_opt(&mut self.loading_screen_text, strings, missing);
        resolve_in_opt(&mut self.loading_screen_title, strings, missing);
        resolve_in_opt(&mut self.loading_screen_subtitle, strings, missing);
        resolve_in_opt(&mut self.prologue_screen_text, strings, missing);
        resolve_in_opt(&mut self.prologue_screen_title, strings, missing);
        resolve_in_opt(&mut self.prologue_screen_subtitle, strings, missing);
        resolve_players(&mut self.players, strings, missing);
        resolve_forces(&mut self.forces, strings, missing);
        resolve_unit_tables(&mut self.random_unit_tables, strings, missing);
        resolve_item_tables(&mut self.random_item_tables, strings, missing);
    }
}

} // verus!
