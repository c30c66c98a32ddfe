//! The layouts of workspaces.

use vstd::prelude::*;

use crate::actor;
use crate::actor::LayoutId;
use crate::common::collections;
use crate::common::collections::VecMap;
use crate::layout_engine::systems::LayoutSystem;
use crate::layout_engine::workspaces::view;
use crate::layout_engine::workspaces::view::{
    InfoView, LayoutRow, LayoutSource, LayoutStateError, LayoutsView, SavedWorkspace, Size,
    WorkspaceRecord,
};
use crate::model::window_store::view::{VirtualWorkspaceId, WindowWorkspaceInfo};
use crate::sys::SpaceId;

verus! {

/// The layouts of one workspace: one for each size of display it was shown on.
pub struct SpaceLayoutInfo {
    configurations: VecMap<Size, LayoutId>,
    active_size: Size,
    last_saved: Option<LayoutId>,
}

impl View for SpaceLayoutInfo {
    type V = InfoView;

    closed spec fn view(&self) -> InfoView {
        InfoView {
            configurations: self.configurations@,
            active_size: self.active_size,
            last_saved: self.last_saved,
        }
    }
}

impl SpaceLayoutInfo {
    pub closed spec fn wf(&self) -> bool {
        self.configurations.wf()
    }

    /// The layout for the display that is in use.
    pub fn active(&self) -> (r: Option<LayoutId>)
        requires
            self.wf(),
        ensures
            r == self@.active(),
    {
        match self.configurations.get(self.active_size) {
            Some(layout) => Some(*layout),
            None => None,
        }
    }

    fn copy(&self) -> (r: SpaceLayoutInfo)
        requires
            self.wf(),
        ensures
            r.wf(),
            r@ == self@,
    {
        let keys = self.configurations.keys();
        let mut configurations: VecMap<Size, LayoutId> = VecMap::new();
        let mut i: usize = 0;
        while i < keys.len()
            invariant
                i <= keys@.len(),
                self.wf(),
                configurations.wf(),
                forall|k: Size| keys@.contains(k) <==> self.configurations@.contains_key(k),
                forall|k: Size| #[trigger]
                    configurations@.contains_key(k) <==> keys@.take(i as int).contains(k),
                forall|k: Size| #[trigger]
                    configurations@.contains_key(k) ==> configurations@[k]
                        == self.configurations@[k],
            decreases keys@.len() - i,
        {
            let key = keys[i];
            assert(keys@.contains(key));
            if let Some(layout) = self.configurations.get(key) {
                configurations.insert(key, *layout);
            }
            proof {
                collections::lemma_take_more(keys@, i as int);
            }
            i += 1;
        }
        assert(keys@.take(i as int) =~= keys@);
        assert(configurations@ =~= self.configurations@);
        SpaceLayoutInfo {
            configurations,
            active_size: self.active_size,
            last_saved: self.last_saved,
        }
    }

    /// The layouts of the workspace as plain values.
    fn saved(&self, at: WindowWorkspaceInfo) -> (r: SavedWorkspace)
        requires
            self.wf(),
        ensures
            r.at == at,
            r.info() == self@,
    {
        let keys = self.configurations.keys();
        let mut configurations: Vec<(Size, LayoutId)> = Vec::new();
        let mut i: usize = 0;
        while i < keys.len()
            invariant
                i <= keys@.len(),
                self.wf(),
                forall|k: Size| keys@.contains(k) <==> self.configurations@.contains_key(k),
                forall|k: Size| #[trigger]
                    view::configured(configurations@).contains_key(k) <==> keys@.take(
                        i as int,
                    ).contains(k),
                forall|k: Size| #[trigger]
                    view::configured(configurations@).contains_key(k) ==> view::configured(
                        configurations@,
                    )[k] == self.configurations@[k],
            decreases keys@.len() - i,
        {
            let key = keys[i];
            assert(keys@.contains(key));
            if let Some(layout) = self.configurations.get(key) {
                let ghost before = configurations@;
                configurations.push((key, *layout));
                proof {
                    assert(configurations@.drop_last() =~= before);
                    let less = view::configured(before);
                    let more = view::configured(configurations@);
                    assert(more == less.insert(key, *layout));
                    collections::lemma_take_more(keys@, i as int);
                    assert forall|k: Size| #[trigger]
                        more.contains_key(k) <==> keys@.take(i + 1).contains(k) by {
                        assert(less.contains_key(k) <==> keys@.take(i as int).contains(k));
                    }
                    assert forall|k: Size| #[trigger] more.contains_key(k) implies more[k]
                        == self.configurations@[k] by {
                        if k != key {
                            assert(less.contains_key(k));
                        }
                    }
                }
            }
            i += 1;
        }
        assert(keys@.take(i as int) =~= keys@);
        assert(view::configured(configurations@) =~= self.configurations@);
        SavedWorkspace {
            at,
            configurations,
            active_size: self.active_size,
            last_saved: self.last_saved,
        }
    }

    fn loaded(saved: &SavedWorkspace) -> (r: SpaceLayoutInfo)
        ensures
            r.wf(),
            r@ == saved.info(),
    {
        let list = &saved.configurations;
        let mut configurations: VecMap<Size, LayoutId> = VecMap::new();
        let mut i: usize = 0;
        assert(list@.take(0) =~= Seq::empty());
        while i < list.len()
            invariant
                i <= list@.len(),
                configurations.wf(),
                configurations@ == view::configured(list@.take(i as int)),
            decreases list@.len() - i,
        {
            assert(list@.take(i + 1).drop_last() =~= list@.take(i as int));
            configurations.insert(list[i].0, list[i].1);
            i += 1;
        }
        assert(list@.take(i as int) =~= list@);
        SpaceLayoutInfo {
            configurations,
            active_size: saved.active_size,
            last_saved: saved.last_saved,
        }
    }

    /// Every layout of the workspace.
    fn layouts(&self) -> (r: Vec<LayoutId>)
        requires
            self.wf(),
        ensures
            forall|l: LayoutId| r@.contains(l) <==> #[trigger] self@.keeps(l),
    {
        let keys = self.configurations.keys();
        let mut out: Vec<LayoutId> = Vec::new();
        let mut i: usize = 0;
        while i < keys.len()
            invariant
                i <= keys@.len(),
                self.wf(),
                forall|k: Size| keys@.contains(k) <==> self.configurations@.contains_key(k),
                out@.len() == i,
                forall|j: int| 0 <= j < i ==> out@[j] == self.configurations@[keys@[j]],
            decreases keys@.len() - i,
        {
            assert(keys@.contains(keys@[i as int]));
            if let Some(layout) = self.configurations.get(keys[i]) {
                out.push(*layout);
            }
            i += 1;
        }
        let ghost listed = out@;
        if let Some(layout) = self.last_saved {
            out.push(layout);
        }
        assert forall|l: LayoutId| out@.contains(l) <==> #[trigger] self@.keeps(l) by {
            if out@.contains(l) {
                let j = choose|j: int| 0 <= j < out@.len() && out@[j] == l;
                if j < keys@.len() {
                    assert(keys@.contains(keys@[j]));
                    assert(self.configurations@[keys@[j]] == l);
                }
            }
            if self.configurations@.contains_value(l) {
                let k = choose|k: Size|
                    self.configurations@.dom().contains(k) && self.configurations@[k] == l;
                assert(keys@.contains(k));
                let j = choose|j: int| 0 <= j < keys@.len() && keys@[j] == k;
                assert(out@[j] == l);
            }
            if self.last_saved == Some(l) {
                assert(out@[out@.len() - 1] == l);
            }
        }
        out
    }
}

/// The layouts of a workspace, to be put back later.
pub struct WorkspaceLayoutSnapshot {
    info: SpaceLayoutInfo,
}

impl View for WorkspaceLayoutSnapshot {
    type V = InfoView;

    closed spec fn view(&self) -> InfoView {
        self.info@
    }
}

impl WorkspaceLayoutSnapshot {
    pub closed spec fn wf(&self) -> bool {
        self.info.wf()
    }
}

/// Whether a list of layouts holds one.
fn lists(layouts: &Vec<LayoutId>, layout: LayoutId) -> (r: bool)
    ensures
        r == layouts@.contains(layout),
{
    let mut i: usize = 0;
    while i < layouts.len()
        invariant
            i <= layouts@.len(),
            forall|j: int| 0 <= j < i ==> layouts@[j] != layout,
        decreases layouts@.len() - i,
    {
        if layouts[i] == layout {
            return true;
        }
        i += 1;
    }
    false
}

fn find_record(records: &[WorkspaceRecord], workspace: VirtualWorkspaceId) -> (r: Option<usize>)
    ensures
        match r {
            Some(i) => i < records@.len() && view::record_of(records@, workspace) == Some(
                records@[i as int],
            ),
            None => view::record_of(records@, workspace) is None,
        },
{
    let mut i: usize = 0;
    assert(records@.skip(0) =~= records@);
    while i < records.len()
        invariant
            i <= records@.len(),
            view::record_of(records@, workspace) == view::record_of(
                records@.skip(i as int),
                workspace,
            ),
        decreases records@.len() - i,
    {
        assert(records@.skip(i as int).skip(1) =~= records@.skip(i + 1));
        if records[i].workspace == workspace {
            return Some(i);
        }
        i += 1;
    }
    None
}

fn comes_before(a: &LayoutRow, b: &LayoutRow) -> (r: bool)
    ensures
        r == view::row_before(*a, *b),
{
    a.0.raw < b.0.raw || (a.0 == b.0 && (a.1.rank() < b.1.rank() || (a.1 == b.1 && a.2.rank()
        < b.2.rank())))
}

fn same_row(a: &LayoutRow, b: &LayoutRow) -> (r: bool)
    ensures
        r == (*a == *b),
{
    a.0 == b.0 && a.1 == b.1 && a.2 == b.2
}

/// Rows are in an order: of two different ones, one comes first.
proof fn lemma_row_order(a: LayoutRow, b: LayoutRow)
    ensures
        a == b || view::row_before(a, b) || view::row_before(b, a),
        !(view::row_before(a, b) && view::row_before(b, a)),
        a == b ==> !view::row_before(a, b),
{
    actor::law_key_order(a.1.raw, b.1.raw);
    actor::law_key_order(a.2.raw, b.2.raw);
}

/// Puts a row where it belongs, once.
fn place_row(rows: &mut Vec<LayoutRow>, row: LayoutRow)
    requires
        view::rows_in_order(old(rows)@),
    ensures
        view::rows_in_order(final(rows)@),
        forall|x: LayoutRow| final(rows)@.contains(x) <==> old(rows)@.contains(x) || x == row,
{
    let mut i: usize = rows.len();
    while i > 0 && comes_before(&row, &rows[i - 1])
        invariant
            i <= rows@.len(),
            rows@ == old(rows)@,
            forall|j: int| i <= j < rows@.len() ==> view::row_before(row, #[trigger] rows@[j]),
        decreases i,
    {
        i -= 1;
    }
    let ghost before = rows@;
    if i > 0 && same_row(&rows[i - 1], &row) {
        assert(rows@[i - 1] == row);
    } else {
        rows.insert(i, row);
        proof {
            let after = rows@;
            if i > 0 {
                lemma_row_order(before[i - 1], row);
            }
            assert forall|a: int, b: int| 0 <= a < b < after.len() implies #[trigger]
            view::row_before(after[a], after[b]) by {
                let x = if a < i {
                    a
                } else {
                    a - 1
                };
                let y = if b < i {
                    b
                } else {
                    b - 1
                };
                if a != i && b != i {
                    assert(view::row_before(before[x], before[y]));
                } else if b == i {
                    if a < i - 1 {
                        assert(view::row_before(before[a], before[i - 1]));
                    }
                    assert(view::row_before(before[i - 1], row));
                }
            }
            assert forall|x: LayoutRow|
                after.contains(x) <==> before.contains(x) || x == row by {
                if before.contains(x) {
                    let j = choose|j: int| 0 <= j < before.len() && before[j] == x;
                    assert(after[if j < i {
                        j
                    } else {
                        j + 1
                    }] == x);
                }
                if after.contains(x) && x != row {
                    let j = choose|j: int| 0 <= j < after.len() && after[j] == x;
                    assert(before[if j < i {
                        j
                    } else {
                        j - 1
                    }] == x);
                }
                if x == row {
                    assert(after[i as int] == x);
                }
            }
        }
    }
}

/// Puts a space where it belongs, once.
fn place_space(spaces: &mut Vec<SpaceId>, space: SpaceId)
    requires
        forall|i: int, j: int|
            0 <= i < j < old(spaces)@.len() ==> (#[trigger] old(spaces)@[i]).raw < (
            #[trigger] old(spaces)@[j]).raw,
    ensures
        forall|i: int, j: int|
            0 <= i < j < final(spaces)@.len() ==> (#[trigger] final(spaces)@[i]).raw < (
            #[trigger] final(spaces)@[j]).raw,
        forall|x: SpaceId| final(spaces)@.contains(x) <==> old(spaces)@.contains(x) || x == space,
{
    let mut i: usize = spaces.len();
    while i > 0 && space.raw < spaces[i - 1].raw
        invariant
            i <= spaces@.len(),
            spaces@ == old(spaces)@,
            forall|j: int| i <= j < spaces@.len() ==> space.raw < (#[trigger] spaces@[j]).raw,
        decreases i,
    {
        i -= 1;
    }
    let ghost before = spaces@;
    if i > 0 && spaces[i - 1] == space {
        assert(spaces@[i - 1] == space);
    } else {
        spaces.insert(i, space);
        proof {
            let after = spaces@;
            assert forall|x: SpaceId| after.contains(x) <==> before.contains(x) || x == space by {
                if before.contains(x) {
                    let j = choose|j: int| 0 <= j < before.len() && before[j] == x;
                    assert(after[if j < i {
                        j
                    } else {
                        j + 1
                    }] == x);
                }
                if after.contains(x) && x != space {
                    let j = choose|j: int| 0 <= j < after.len() && after[j] == x;
                    assert(before[if j < i {
                        j
                    } else {
                        j - 1
                    }] == x);
                }
                if x == space {
                    assert(after[i as int] == x);
                }
            }
        }
    }
}

/// Whether a workspace that is listed keeps a layout.
spec fn recorded_among(m: LayoutsView, places: Seq<WindowWorkspaceInfo>, row: LayoutRow) -> bool {
    view::records(m, row) && places.contains(view::place(row.0, row.1))
}

/// The places of a space in a list.
spec fn occupied(places: Seq<WindowWorkspaceInfo>, space: SpaceId) -> Set<WindowWorkspaceInfo> {
    Set::new(|at: WindowWorkspaceInfo| at.space == space && places.contains(at))
}

/// The layouts after some places of a space got its new name.
spec fn partly_remapped(
    m: LayoutsView,
    done: Seq<WindowWorkspaceInfo>,
    from: SpaceId,
    to: SpaceId,
) -> LayoutsView {
    Map::new(
        |at: WindowWorkspaceInfo|
            if at.space == to {
                done.contains(view::place(from, at.workspace_id)) && m.contains_key(
                    view::place(from, at.workspace_id),
                )
            } else {
                m.contains_key(at) && !(at.space == from && done.contains(at))
            },
        |at: WindowWorkspaceInfo|
            if at.space == to {
                m[view::place(from, at.workspace_id)]
            } else {
                m[at]
            },
    )
}

/// The layouts of every workspace.
pub struct WorkspaceLayouts {
    map: VecMap<WindowWorkspaceInfo, SpaceLayoutInfo>,
}

impl View for WorkspaceLayouts {
    type V = LayoutsView;

    closed spec fn view(&self) -> LayoutsView {
        self.map@.map_values(|info: SpaceLayoutInfo| info@)
    }
}

impl Default for WorkspaceLayouts {
    fn default() -> (r: WorkspaceLayouts)
        ensures
            r.wf(),
            r@ == Map::<WindowWorkspaceInfo, InfoView>::empty(),
    {
        let r = WorkspaceLayouts { map: VecMap::new() };
        assert(r@ =~= Map::empty());
        r
    }
}

impl WorkspaceLayouts {
    pub closed spec fn wf(&self) -> bool {
        &&& self.map.wf()
        &&& forall|at: WindowWorkspaceInfo| #[trigger]
            self.map@.contains_key(at) ==> self.map@[at].wf()
    }

    fn lookup(&self, space: SpaceId, workspace: VirtualWorkspaceId) -> (r: Option<&SpaceLayoutInfo>)
        requires
            self.wf(),
        ensures
            match r {
                Some(info) => info.wf() && self@.contains_key(view::place(space, workspace))
                    && info@ == self@[view::place(space, workspace)],
                None => !self@.contains_key(view::place(space, workspace)),
            },
    {
        self.map.get(WindowWorkspaceInfo { space, workspace_id: workspace })
    }

    fn put(&mut self, at: WindowWorkspaceInfo, info: SpaceLayoutInfo)
        requires
            old(self).wf(),
            info.wf(),
        ensures
            final(self).wf(),
            final(self)@ == old(self)@.insert(at, info@),
    {
        self.map.insert(at, info);
        assert(self@ =~= old(self)@.insert(at, info@));
    }

    /// The layouts of every workspace as plain values, to be written down. Each
    /// workspace has one entry. Loading them gives the same layouts again.
    pub fn saved(&self) -> (r: Vec<SavedWorkspace>)
        requires
            self.wf(),
        ensures
            view::loaded(r@) == self@,
            forall|i: int, j: int|
                0 <= i < j < r@.len() ==> (#[trigger] r@[i]).at != (#[trigger] r@[j]).at,
    {
        let places = self.map.keys();
        let mut out: Vec<SavedWorkspace> = Vec::new();
        let mut i: usize = 0;
        while i < places.len()
            invariant
                i <= places@.len(),
                self.wf(),
                places@.no_duplicates(),
                forall|at: WindowWorkspaceInfo|
                    places@.contains(at) <==> self.map@.contains_key(at),
                out@.len() == i,
                forall|j: int| 0 <= j < i ==> (#[trigger] out@[j]).at == places@[j],
                forall|at: WindowWorkspaceInfo| #[trigger]
                    view::loaded(out@).contains_key(at) <==> places@.take(i as int).contains(at),
                forall|at: WindowWorkspaceInfo| #[trigger]
                    view::loaded(out@).contains_key(at) ==> view::loaded(out@)[at] == self@[at],
            decreases places@.len() - i,
        {
            let at = places[i];
            assert(places@.contains(at));
            assert(at == view::place(at.space, at.workspace_id));
            if let Some(info) = self.lookup(at.space, at.workspace_id) {
                let ghost before = out@;
                out.push(info.saved(at));
                proof {
                    assert(out@.drop_last() =~= before);
                    let less = view::loaded(before);
                    let more = view::loaded(out@);
                    assert(more == less.insert(at, info@));
                    collections::lemma_take_more(places@, i as int);
                    assert forall|p: WindowWorkspaceInfo| #[trigger]
                        more.contains_key(p) <==> places@.take(i + 1).contains(p) by {
                        assert(less.contains_key(p) <==> places@.take(i as int).contains(p));
                    }
                    assert forall|p: WindowWorkspaceInfo| #[trigger]
                        more.contains_key(p) implies more[p] == self@[p] by {
                        if p != at {
                            assert(less.contains_key(p));
                        }
                    }
                }
            }
            i += 1;
        }
        assert(places@.take(i as int) =~= places@);
        assert(view::loaded(out@) =~= self@);
        out
    }

    /// The layouts that were written down.
    pub fn load(saved: &Vec<SavedWorkspace>) -> (r: WorkspaceLayouts)
        ensures
            r.wf(),
            r@ == view::loaded(saved@),
    {
        let mut r = WorkspaceLayouts::default();
        let mut i: usize = 0;
        assert(saved@.take(0) =~= Seq::empty());
        while i < saved.len()
            invariant
                i <= saved@.len(),
                r.wf(),
                r@ == view::loaded(saved@.take(i as int)),
            decreases saved@.len() - i,
        {
            assert(saved@.take(i + 1).drop_last() =~= saved@.take(i as int));
            r.put(saved[i].at, SpaceLayoutInfo::loaded(&saved[i]));
            i += 1;
        }
        assert(saved@.take(i as int) =~= saved@);
        r
    }

    /// The size of the display that a workspace is shown on.
    pub fn active_size(&self, space: SpaceId, workspace: VirtualWorkspaceId) -> (r: Option<Size>)
        requires
            self.wf(),
        ensures
            r == (if self@.contains_key(view::place(space, workspace)) {
                Some(self@[view::place(space, workspace)].active_size)
            } else {
                None
            }),
    {
        match self.lookup(space, workspace) {
            Some(info) => Some(info.active_size),
            None => None,
        }
    }

    /// What is wrong with the layouts of a workspace.
    fn check_place(&self, known: &[WorkspaceRecord], at: WindowWorkspaceInfo) -> (r: Result<
        (),
        LayoutStateError,
    >)
        requires
            self.wf(),
            self@.contains_key(at),
        ensures
            match r {
                Ok(_) => view::is_sound(self@, known@, at),
                Err(error) => view::is_fault(self@, known@, at, error) && !view::is_sound(
                    self@,
                    known@,
                    at,
                ),
            },
    {
        let workspace = at.workspace_id;
        let i = match find_record(known, workspace) {
            Some(i) => i,
            None => {
                return Err(LayoutStateError::MissingWorkspace { workspace });
            },
        };
        let actual = known[i].space;
        if actual != at.space {
            return Err(LayoutStateError::WrongSpace { workspace, stored: at.space, actual });
        }
        if let Some(info) = self.lookup(at.space, workspace) {
            let sizes = info.configurations.keys();
            if sizes.len() == 0 {
                assert(info@.configurations.dom() =~= Set::empty()) by {
                    assert forall|k: Size| !info@.configurations.dom().contains(k) by {
                        if info@.configurations.contains_key(k) {
                            assert(sizes@.contains(k));
                        }
                    }
                }
                return Err(LayoutStateError::NoConfigurations { workspace });
            }
            assert(sizes@.contains(sizes@[0]));
            assert(info@.configurations.dom().contains(sizes@[0]));
            if !info.configurations.contains_key(info.active_size) {
                return Err(LayoutStateError::NoActiveConfiguration { workspace });
            }
            let layouts = info.layouts();
            let mut j: usize = 0;
            while j < layouts.len()
                invariant
                    j <= layouts@.len(),
                    i < known@.len(),
                    view::record_of(known@, workspace) == Some(known@[i as int]),
                    known@[i as int].space == at.space,
                    workspace == at.workspace_id,
                    self@[at].configurations.dom().contains(sizes@[0]),
                    self@[at].configurations.contains_key(self@[at].active_size),
                    forall|l: LayoutId| layouts@.contains(l) <==> #[trigger] self@[at].keeps(l),
                    forall|k: int|
                        0 <= k < j ==> known@[i as int].layouts@.contains(#[trigger] layouts@[k]),
                decreases layouts@.len() - j,
            {
                assert(layouts@.contains(layouts@[j as int]));
                assert(self@[at].keeps(layouts@[j as int]));
                if !lists(&known[i].layouts, layouts[j]) {
                    return Err(LayoutStateError::MissingLayout { workspace, layout: layouts[j] });
                }
                j += 1;
            }
        }
        Ok(())
    }

    /// Checks layouts that were stored. `known` is what is known of the workspaces,
    /// `existing` the workspaces of spaces that are set up.
    pub fn validate_persisted(
        &self,
        known: &[WorkspaceRecord],
        existing: &[WindowWorkspaceInfo],
    ) -> (r: Result<(), LayoutStateError>)
        requires
            self.wf(),
        ensures
            view::is_outcome(self@, known@, existing@, r),
            r is Ok <==> view::all_sound(self@, known@) && forall|i: int|
                0 <= i < existing@.len() ==> self@.contains_key(#[trigger] existing@[i]),
    {
        let places = self.map.keys();
        let mut i: usize = 0;
        while i < places.len()
            invariant
                i <= places@.len(),
                self.wf(),
                forall|at: WindowWorkspaceInfo|
                    places@.contains(at) <==> self.map@.contains_key(at),
                forall|j: int|
                    0 <= j < i ==> view::is_sound(self@, known@, #[trigger] places@[j]),
            decreases places@.len() - i,
        {
            assert(places@.contains(places@[i as int]));
            assert(self@.contains_key(places@[i as int]));
            if let Err(error) = self.check_place(known, places[i]) {
                return Err(error);
            }
            i += 1;
        }
        assert(view::all_sound(self@, known@)) by {
            assert forall|at: WindowWorkspaceInfo| #[trigger]
                self@.contains_key(at) implies view::is_sound(self@, known@, at) by {
                assert(places@.contains(at));
            }
        }
        let mut k: usize = 0;
        assert(existing@.skip(0) =~= existing@);
        while k < existing.len()
            invariant
                k <= existing@.len(),
                self.wf(),
                view::all_sound(self@, known@),
                view::first_bare(self@, existing@) == view::first_bare(
                    self@,
                    existing@.skip(k as int),
                ),
                forall|j: int| 0 <= j < k ==> self@.contains_key(#[trigger] existing@[j]),
            decreases existing@.len() - k,
        {
            assert(existing@.skip(k as int).skip(1) =~= existing@.skip(k + 1));
            let at = existing[k];
            if !self.map.contains_key(at) {
                assert(!self@.contains_key(existing@[k as int]));
                return Err(
                    LayoutStateError::NoLayoutState {
                        workspace: at.workspace_id,
                        space: at.space,
                    },
                );
            }
            k += 1;
        }
        Ok(())
    }

    pub fn snapshot_workspace(&self, space: SpaceId, workspace: VirtualWorkspaceId) -> (r: Option<
        WorkspaceLayoutSnapshot,
    >)
        requires
            self.wf(),
        ensures
            match r {
                Some(snapshot) => snapshot.wf() && self@.contains_key(
                    view::place(space, workspace),
                ) && snapshot@ == self@[view::place(space, workspace)],
                None => !self@.contains_key(view::place(space, workspace)),
            },
    {
        match self.lookup(space, workspace) {
            Some(info) => Some(WorkspaceLayoutSnapshot { info: info.copy() }),
            None => None,
        }
    }

    pub fn install_workspace_snapshot(
        &mut self,
        space: SpaceId,
        workspace: VirtualWorkspaceId,
        snapshot: WorkspaceLayoutSnapshot,
    )
        requires
            old(self).wf(),
            snapshot.wf(),
        ensures
            final(self).wf(),
            final(self)@ == old(self)@.insert(view::place(space, workspace), snapshot@),
    {
        self.put(WindowWorkspaceInfo { space, workspace_id: workspace }, snapshot.info);
    }

    pub fn contains_workspace(&self, space: SpaceId, workspace: VirtualWorkspaceId) -> (r: bool)
        ensures
            r == self@.contains_key(view::place(space, workspace)),
    {
        self.map.contains_key(WindowWorkspaceInfo { space, workspace_id: workspace })
    }

    /// The layout that a workspace uses.
    pub fn active(&self, space: SpaceId, workspace_id: VirtualWorkspaceId) -> (r: Option<LayoutId>)
        requires
            self.wf(),
        ensures
            r == (if self@.contains_key(view::place(space, workspace_id)) {
                self@[view::place(space, workspace_id)].active()
            } else {
                None
            }),
    {
        match self.lookup(space, workspace_id) {
            Some(info) => info.active(),
            None => None,
        }
    }

    pub fn mark_last_saved(
        &mut self,
        space: SpaceId,
        workspace_id: VirtualWorkspaceId,
        layout: LayoutId,
    )
        requires
            old(self).wf(),
        ensures
            final(self).wf(),
            final(self)@ == ({
                let at = view::place(space, workspace_id);
                if old(self)@.contains_key(at) {
                    old(self)@.insert(
                        at,
                        InfoView { last_saved: Some(layout), ..old(self)@[at] },
                    )
                } else {
                    old(self)@
                }
            }),
    {
        let at = WindowWorkspaceInfo { space, workspace_id };
        if let Some(mut info) = self.map.remove(at) {
            info.last_saved = Some(layout);
            self.put(at, info);
        }
    }

    /// One layout takes the place of all that a workspace had. The size of the
    /// display stays; a workspace without layouts gets a square one.
    pub fn replace_layouts_for_workspace(
        &mut self,
        space: SpaceId,
        workspace_id: VirtualWorkspaceId,
        new_layout: LayoutId,
    )
        requires
            old(self).wf(),
        ensures
            final(self).wf(),
            final(self)@ == ({
                let at = view::place(space, workspace_id);
                old(self)@.insert(
                    at,
                    InfoView::replaced(
                        view::info_at(
                            old(self)@,
                            at,
                            Size { width: 1000, height: 1000 },
                        ).active_size,
                        new_layout,
                    ),
                )
            }),
    {
        let active_size = match self.active_size(space, workspace_id) {
            Some(size) => size,
            None => Size { width: 1000, height: 1000 },
        };
        let mut configurations: VecMap<Size, LayoutId> = VecMap::new();
        configurations.insert(active_size, new_layout);
        let info = SpaceLayoutInfo { configurations, active_size, last_saved: Some(new_layout) };
        self.put(WindowWorkspaceInfo { space, workspace_id }, info);
    }

    /// Adds a layout for a display that is not in use.
    pub fn insert_layout_configuration(
        &mut self,
        space: SpaceId,
        workspace: VirtualWorkspaceId,
        size: Size,
        layout: LayoutId,
    )
        requires
            old(self).wf(),
            old(self)@.contains_key(view::place(space, workspace)),
        ensures
            final(self).wf(),
            final(self)@ == ({
                let at = view::place(space, workspace);
                old(self)@.insert(
                    at,
                    InfoView {
                        configurations: old(self)@[at].configurations.insert(size, layout),
                        ..old(self)@[at]
                    },
                )
            }),
    {
        let at = WindowWorkspaceInfo { space, workspace_id: workspace };
        if let Some(mut info) = self.map.remove(at) {
            info.configurations.insert(size, layout);
            self.put(at, info);
        }
    }

    /// Every space that has a workspace with layouts, in order.
    pub fn spaces(&self) -> (r: Vec<SpaceId>)
        requires
            self.wf(),
        ensures
            forall|i: int, j: int|
                0 <= i < j < r@.len() ==> (#[trigger] r@[i]).raw < (#[trigger] r@[j]).raw,
            forall|space: SpaceId| #[trigger]
                r@.contains(space) <==> exists|at: WindowWorkspaceInfo| #[trigger]
                    self@.contains_key(at) && at.space == space,
    {
        let places = self.map.keys();
        let mut out: Vec<SpaceId> = Vec::new();
        let mut i: usize = 0;
        while i < places.len()
            invariant
                i <= places@.len(),
                forall|a: int, b: int|
                    0 <= a < b < out@.len() ==> (#[trigger] out@[a]).raw < (#[trigger] out@[b]).raw,
                forall|space: SpaceId| #[trigger]
                    out@.contains(space) <==> exists|k: int|
                        0 <= k < i && (#[trigger] places@[k]).space == space,
            decreases places@.len() - i,
        {
            let ghost before = out@;
            place_space(&mut out, places[i].space);
            assert forall|space: SpaceId| #[trigger]
                out@.contains(space) <==> exists|k: int|
                    0 <= k < i + 1 && (#[trigger] places@[k]).space == space by {
                if before.contains(space) {
                    let k = choose|k: int| 0 <= k < i && (#[trigger] places@[k]).space == space;
                    assert(places@[k].space == space);
                }
                assert(places@[i as int].space == places@[i as int].space);
            }
            i += 1;
        }
        assert forall|space: SpaceId| #[trigger]
            out@.contains(space) <==> exists|at: WindowWorkspaceInfo| #[trigger]
                self@.contains_key(at) && at.space == space by {
            if out@.contains(space) {
                let k = choose|k: int|
                    0 <= k < places@.len() && (#[trigger] places@[k]).space == space;
                assert(places@.contains(places@[k]));
                assert(self@.contains_key(places@[k]));
            }
            if exists|at: WindowWorkspaceInfo| #[trigger]
                self@.contains_key(at) && at.space == space {
                let at = choose|at: WindowWorkspaceInfo| #[trigger]
                    self@.contains_key(at) && at.space == space;
                assert(places@.contains(at));
                let k = choose|k: int| 0 <= k < places@.len() && places@[k] == at;
                assert(places@[k].space == space);
            }
        }
        out
    }

    /// Every layout of every workspace, for all displays, in order.
    pub fn all_layouts(&self) -> (r: Vec<LayoutRow>)
        requires
            self.wf(),
        ensures
            view::rows_in_order(r@),
            forall|row: LayoutRow| r@.contains(row) <==> #[trigger] view::records(self@, row),
    {
        let places = self.map.keys();
        let mut out: Vec<LayoutRow> = Vec::new();
        let mut i: usize = 0;
        while i < places.len()
            invariant
                i <= places@.len(),
                self.wf(),
                forall|at: WindowWorkspaceInfo|
                    places@.contains(at) <==> self.map@.contains_key(at),
                view::rows_in_order(out@),
                forall|row: LayoutRow| #[trigger]
                    out@.contains(row) <==> recorded_among(self@, places@.take(i as int), row),
            decreases places@.len() - i,
        {
            let at = places[i];
            let ghost before = out@;
            assert(places@.contains(places@[i as int]));
            assert(self@.contains_key(at));
            assert(at == view::place(at.space, at.workspace_id));
            if let Some(info) = self.lookup(at.space, at.workspace_id) {
                let layouts = info.layouts();
                let mut j: usize = 0;
                while j < layouts.len()
                    invariant
                        j <= layouts@.len(),
                        view::rows_in_order(out@),
                        forall|row: LayoutRow|
                            out@.contains(row) <==> before.contains(row) || (row.0 == at.space
                                && row.1 == at.workspace_id && layouts@.take(j as int).contains(
                                row.2,
                            )),
                    decreases layouts@.len() - j,
                {
                    place_row(&mut out, (at.space, at.workspace_id, layouts[j]));
                    proof {
                        collections::lemma_take_more(layouts@, j as int);
                    }
                    j += 1;
                }
                assert(layouts@.take(j as int) =~= layouts@);
                assert forall|row: LayoutRow| #[trigger]
                    out@.contains(row) <==> recorded_among(self@, places@.take(i + 1), row) by {
                    collections::lemma_take_more(places@, i as int);
                    assert(places@.take(i + 1).contains(view::place(row.0, row.1)) <==> (
                    places@.take(i as int).contains(view::place(row.0, row.1)) || view::place(
                        row.0,
                        row.1,
                    ) == at));
                    assert(before.contains(row) <==> recorded_among(
                        self@,
                        places@.take(i as int),
                        row,
                    ));
                    if row.0 == at.space && row.1 == at.workspace_id {
                        assert(view::place(row.0, row.1) == at);
                        assert(layouts@.contains(row.2) <==> info@.keeps(row.2));
                    }
                }
            }
            i += 1;
        }
        assert forall|row: LayoutRow| out@.contains(row) <==> #[trigger] view::records(
            self@,
            row,
        ) by {
            assert(places@.take(i as int) =~= places@);
            if view::records(self@, row) {
                assert(places@.contains(view::place(row.0, row.1)));
            }
        }
        out
    }

    /// The layouts that the workspaces of a space use, in order.
    pub fn active_layouts_for_space(&self, space: SpaceId) -> (r: Vec<
        (VirtualWorkspaceId, LayoutId),
    >)
        requires
            self.wf(),
        ensures
            forall|i: int, j: int|
                0 <= i < j < r@.len() ==> (#[trigger] r@[i]).0.order() < (
                #[trigger] r@[j]).0.order(),
            forall|workspace: VirtualWorkspaceId, layout: LayoutId| #[trigger]
                r@.contains((workspace, layout)) <==> self@.contains_key(
                    view::place(space, workspace),
                ) && self@[view::place(space, workspace)].active() == Some(layout),
    {
        let places = self.map.keys();
        let mut rows: Vec<LayoutRow> = Vec::new();
        let mut i: usize = 0;
        while i < places.len()
            invariant
                i <= places@.len(),
                self.wf(),
                forall|at: WindowWorkspaceInfo|
                    places@.contains(at) <==> self.map@.contains_key(at),
                view::rows_in_order(rows@),
                forall|row: LayoutRow| #[trigger]
                    rows@.contains(row) <==> row.0 == space && self@.contains_key(
                        view::place(space, row.1),
                    ) && self@[view::place(space, row.1)].active() == Some(row.2) && places@.take(
                        i as int,
                    ).contains(view::place(space, row.1)),
            decreases places@.len() - i,
        {
            let at = places[i];
            assert(places@.contains(places@[i as int]));
            if at.space == space {
                if let Some(layout) = self.active(space, at.workspace_id) {
                    place_row(&mut rows, (space, at.workspace_id, layout));
                }
            }
            proof {
                collections::lemma_take_more(places@, i as int);
            }
            i += 1;
        }
        let mut out: Vec<(VirtualWorkspaceId, LayoutId)> = Vec::new();
        let mut j: usize = 0;
        while j < rows.len()
            invariant
                j <= rows@.len(),
                out@.len() == j,
                forall|k: int| 0 <= k < j ==> out@[k] == (rows@[k].1, rows@[k].2),
            decreases rows@.len() - j,
        {
            out.push((rows[j].1, rows[j].2));
            j += 1;
        }
        proof {
            assert forall|a: int, b: int| 0 <= a < b < out@.len() implies (#[trigger] out@[a]).0.order() < (
            #[trigger] out@[b]).0.order() by {
                assert(view::row_before(rows@[a], rows@[b]));
                assert(rows@.contains(rows@[a]));
                assert(rows@.contains(rows@[b]));
            }
            assert forall|workspace: VirtualWorkspaceId, layout: LayoutId| #[trigger]
                out@.contains((workspace, layout)) <==> self@.contains_key(
                    view::place(space, workspace),
                ) && self@[view::place(space, workspace)].active() == Some(layout) by {
                let row = (space, workspace, layout);
                if out@.contains((workspace, layout)) {
                    let k = choose|k: int|
                        0 <= k < out@.len() && out@[k] == (workspace, layout);
                    assert(rows@.contains(rows@[k]));
                }
                if self@.contains_key(view::place(space, workspace)) && self@[view::place(
                    space,
                    workspace,
                )].active() == Some(layout) {
                    assert(places@.contains(view::place(space, workspace)));
                    assert(places@.take(i as int) =~= places@);
                    assert(rows@.contains(row));
                    let k = choose|k: int| 0 <= k < rows@.len() && rows@[k] == row;
                    assert(out@[k] == (workspace, layout));
                }
            }
        }
        out
    }

    /// A space got a new name: its workspaces keep their layouts. What was recorded
    /// under the new name before is dropped, if anything moves there.
    pub fn remap_space(&mut self, old_space: SpaceId, new_space: SpaceId)
        requires
            old(self).wf(),
        ensures
            final(self).wf(),
            final(self)@ == view::remapped(old(self)@, old_space, new_space),
    {
        if old_space == new_space {
            return;
        }
        let places = self.map.keys();
        let ghost m = self@;
        assert forall|at: WindowWorkspaceInfo| places@.contains(at) <==> #[trigger] m.contains_key(
            at,
        ) by {}
        let mut found = false;
        let mut i: usize = 0;
        while i < places.len()
            invariant
                i <= places@.len(),
                found <==> exists|k: int| 0 <= k < i && (#[trigger] places@[k]).space == old_space,
            decreases places@.len() - i,
        {
            if places[i].space == old_space {
                found = true;
                assert(places@[i as int].space == old_space);
            }
            i += 1;
        }
        if !found {
            assert forall|at: WindowWorkspaceInfo| #[trigger] m.contains_key(at) implies at.space
                != old_space by {
                assert(places@.contains(at));
            }
            return;
        }
        proof {
            let k = choose|k: int| 0 <= k < places@.len() && (#[trigger] places@[k]).space == old_space;
            assert(places@.contains(places@[k]));
            assert(m.contains_key(places@[k]));
        }
        let mut j: usize = 0;
        assert(self@ =~= m.remove_keys(occupied(places@.take(0), new_space)));
        while j < places.len()
            invariant
                j <= places@.len(),
                self.wf(),
                self@ == m.remove_keys(occupied(places@.take(j as int), new_space)),
            decreases places@.len() - j,
        {
            let at = places[j];
            let ghost before = self@;
            if at.space == new_space {
                self.drop_place(at);
            }
            proof {
                collections::lemma_take_more(places@, j as int);
                assert(self@ =~= m.remove_keys(occupied(places@.take(j + 1), new_space)));
            }
            j += 1;
        }
        let mut n: usize = 0;
        proof {
            assert(places@.take(j as int) =~= places@);
            assert(self@ =~= partly_remapped(m, places@.take(0), old_space, new_space));
        }
        while n < places.len()
            invariant
                n <= places@.len(),
                self.wf(),
                old_space != new_space,
                places@.no_duplicates(),
                forall|at: WindowWorkspaceInfo|
                    places@.contains(at) <==> #[trigger] m.contains_key(at),
                self@ == partly_remapped(m, places@.take(n as int), old_space, new_space),
            decreases places@.len() - n,
        {
            let at = places[n];
            let ghost before = self@;
            proof {
                collections::lemma_take_more(places@, n as int);
                assert(places@.contains(at));
                assert(!places@.take(n as int).contains(at)) by {
                    if places@.take(n as int).contains(at) {
                        let k = choose|k: int| 0 <= k < n && places@.take(n as int)[k] == at;
                        assert(places@[k] == places@[n as int]);
                    }
                }
            }
            if at.space == old_space {
                if let Some(info) = self.map.remove(at) {
                    let ghost middle = self@;
                    assert(middle =~= before.remove(at));
                    self.put(
                        WindowWorkspaceInfo { space: new_space, workspace_id: at.workspace_id },
                        info,
                    );
                }
            }
            proof {
                let next = partly_remapped(m, places@.take(n + 1), old_space, new_space);
                if at.space == old_space {
                    let there = view::place(new_space, at.workspace_id);
                    assert(before.contains_key(at));
                    assert(self@ == before.remove(at).insert(there, before[at]));
                    assert forall|x: WindowWorkspaceInfo| #[trigger]
                        next.contains_key(x) <==> self@.contains_key(x) by {
                        let from = view::place(old_space, x.workspace_id);
                        assert(places@.take(n + 1).contains(from) <==> places@.take(
                            n as int,
                        ).contains(from) || from == at);
                        assert(places@.take(n + 1).contains(x) <==> places@.take(
                            n as int,
                        ).contains(x) || x == at);
                        assert(from == at <==> x.workspace_id == at.workspace_id);
                    }
                } else {
                    assert forall|x: WindowWorkspaceInfo| #[trigger]
                        next.contains_key(x) <==> self@.contains_key(x) by {
                        let from = view::place(old_space, x.workspace_id);
                        assert(places@.take(n + 1).contains(from) <==> places@.take(
                            n as int,
                        ).contains(from) || from == at);
                        assert(places@.take(n + 1).contains(x) <==> places@.take(
                            n as int,
                        ).contains(x) || x == at);
                    }
                }
                assert(self@ =~= next);
            }
            n += 1;
        }
        proof {
            assert(places@.take(n as int) =~= places@);
            assert(self@ =~= view::remapped(m, old_space, new_space));
        }
    }

    fn drop_place(&mut self, at: WindowWorkspaceInfo)
        requires
            old(self).wf(),
        ensures
            final(self).wf(),
            final(self)@ == old(self)@.remove(at),
    {
        self.map.remove(at);
        assert(self@ =~= old(self)@.remove(at));
    }

    /// A workspace is shown on a display of a size. It keeps the layout that it has
    /// for that size; else it gets one.
    fn settle<T: LayoutSystem>(
        &mut self,
        at: WindowWorkspaceInfo,
        size: Size,
        tree: &mut T,
    ) -> (r: LayoutId)
        requires
            old(self).wf(),
            old(tree).ready(),
            T::known_layouts(old(tree)@).len() < 4294967294,
            view::info_at(old(self)@, at, size).source(size) matches LayoutSource::Copied(l)
                ==> T::copyable(old(tree)@, l),
        ensures
            final(self).wf(),
            final(tree).ready(),
            final(self)@ == view::settled(old(self)@, at, size, r),
            final(tree)@ == view::served::<T>(
                old(tree)@,
                view::info_at(old(self)@, at, size).source(size),
                r,
            ),
            match view::info_at(old(self)@, at, size).source(size) {
                LayoutSource::Kept(layout) => r == layout,
                _ => !T::known_layouts(old(tree)@).contains(r),
            },
            T::known_layouts(final(tree)@).len() <= T::known_layouts(old(tree)@).len() + 1,
            forall|l: LayoutId| #[trigger]
                T::copyable(old(tree)@, l) ==> T::copyable(final(tree)@, l),
    {
        let mut info = match self.map.remove(at) {
            Some(info) => info,
            None => SpaceLayoutInfo {
                configurations: VecMap::new(),
                active_size: size,
                last_saved: None,
            },
        };
        let ghost before = info@;
        assert(before == view::info_at(old(self)@, at, size));
        let previous = info.active();
        info.active_size = size;
        let kept = match info.configurations.get(size) {
            Some(layout) => Some(*layout),
            None => None,
        };
        proof {
            tree.layouts_known();
        }
        let layout = match kept {
            Some(layout) => {
                info.last_saved = Some(layout);
                assert(before.configurations =~= before.configurations.insert(size, layout));
                layout
            },
            None => {
                let layout = match previous {
                    Some(source) => tree.clone_layout(source),
                    None => match info.last_saved {
                        Some(source) => tree.clone_layout(source),
                        None => tree.create_layout(),
                    },
                };
                info.configurations.insert(size, layout);
                layout
            },
        };
        self.put(at, info);
        assert(self@ =~= view::settled(old(self)@, at, size, layout));
        layout
    }

    /// Workspaces of a space are shown on a display of a size. Each keeps the layout
    /// that it has for that size. One that has none gets a copy of the layout that
    /// it used, else of the one that was last saved, else a new one.
    pub fn ensure_active_for_space<T: LayoutSystem>(
        &mut self,
        space: SpaceId,
        size: Size,
        workspaces: &[VirtualWorkspaceId],
        tree: &mut T,
    )
        requires
            old(self).wf(),
            old(tree).ready(),
            T::known_layouts(old(tree)@).len() + workspaces@.len() <= 4294967294,
            forall|i: int|
                0 <= i < workspaces@.len() ==> (view::info_at(
                    old(self)@,
                    view::place(space, #[trigger] workspaces@[i]),
                    size,
                ).source(size) matches LayoutSource::Copied(l) ==> T::copyable(old(tree)@, l)),
        ensures
            final(self).wf(),
            final(tree).ready(),
            exists|used: Seq<LayoutId>|
                #![trigger view::all_settled(old(self)@, space, size, workspaces@, used)]
                view::all_apt::<T>(old(tree)@, old(self)@, space, size, workspaces@, used)
                    && final(self)@ == view::all_settled(
                    old(self)@,
                    space,
                    size,
                    workspaces@,
                    used,
                ) && final(tree)@ == view::all_served::<T>(
                    old(tree)@,
                    old(self)@,
                    space,
                    size,
                    workspaces@,
                    used,
                ),
    {
        let ghost mut used: Seq<LayoutId> = Seq::empty();
        let ghost m = self@;
        let ghost t = tree@;
        let mut i: usize = 0;
        assert(workspaces@.take(0) =~= Seq::empty());
        while i < workspaces.len()
            invariant
                i <= workspaces@.len(),
                self.wf(),
                tree.ready(),
                T::known_layouts(tree@).len() + workspaces@.len() - i <= 4294967294,
                used.len() == i,
                forall|j: int|
                    0 <= j < workspaces@.len() ==> (view::info_at(
                        self@,
                        view::place(space, #[trigger] workspaces@[j]),
                        size,
                    ).source(size) matches LayoutSource::Copied(l) ==> T::copyable(tree@, l)),
                view::all_apt::<T>(t, m, space, size, workspaces@.take(i as int), used),
                self@ == view::all_settled(m, space, size, workspaces@.take(i as int), used),
                tree@ == view::all_served::<T>(
                    t,
                    m,
                    space,
                    size,
                    workspaces@.take(i as int),
                    used,
                ),
            decreases workspaces@.len() - i,
        {
            let ghost next = workspaces@.take(i + 1);
            assert(next.drop_last() =~= workspaces@.take(i as int));
            assert(next.last() == workspaces@[i as int]);
            let at = WindowWorkspaceInfo { space, workspace_id: workspaces[i] };
            let layout = self.settle(at, size, tree);
            proof {
                assert(used.push(layout).drop_last() =~= used);
                used = used.push(layout);
            }
            i += 1;
        }
        assert(workspaces@.take(i as int) =~= workspaces@);
    }

    /// A workspace is shown on a display of a size.
    pub fn ensure_active_for_workspace<T: LayoutSystem>(
        &mut self,
        space: SpaceId,
        size: Size,
        workspace_id: VirtualWorkspaceId,
        tree: &mut T,
    )
        requires
            old(self).wf(),
            old(tree).ready(),
            T::known_layouts(old(tree)@).len() < 4294967294,
            view::info_at(old(self)@, view::place(space, workspace_id), size).source(
                size,
            ) matches LayoutSource::Copied(l) ==> T::copyable(old(tree)@, l),
        ensures
            final(self).wf(),
            final(tree).ready(),
            exists|layout: LayoutId|
                {
                    let at = view::place(space, workspace_id);
                    let source = view::info_at(old(self)@, at, size).source(size);
                    &&& final(self)@ == #[trigger] view::settled(
                        old(self)@,
                        view::place(space, workspace_id),
                        size,
                        layout,
                    )
                    &&& final(tree)@ == view::served::<T>(old(tree)@, source, layout)
                    &&& match source {
                        LayoutSource::Kept(kept) => layout == kept,
                        _ => !T::known_layouts(old(tree)@).contains(layout),
                    }
                },
    {
        let at = WindowWorkspaceInfo { space, workspace_id };
        let layout = self.settle(at, size, tree);
    }
}

} // verus!
