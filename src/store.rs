//! The index: projects, assets and dependency edges, with their queries.
use vstd::prelude::*;
use crate::model::{first_n, lemma_filter_step, Asset, AssetType, AssetView, Dependency, DependencyView, LibraryError, Project, ProjectView, assets_view, deps_view};
use crate::text::{opt_view, same_text};

verus! {

/// The in-memory index.
#[derive(Debug)]
pub struct Store {
    pub projects: Vec<Project>,
    pub assets: Vec<Asset>,
    pub deps: Vec<Dependency>,
    pub next_id: u64,
}

/// An asset's project and path, as known before a scan.
#[derive(Debug)]
pub struct ExistingFile {
    pub absolute_path: String,
    pub size_bytes: u64,
    pub modified_time: i64,
    pub id: u64,
}

/// Whether the asset belongs to project `pid`.
pub open spec fn in_project(pid: u64) -> spec_fn(AssetView) -> bool {
    |a: AssetView| a.project_id == pid
}

/// Whether the asset is of a kind that gets a thumbnail.
pub open spec fn previewable(t: AssetType) -> bool {
    t == AssetType::Texture || t == AssetType::Material
}

/// Assets of project `pid` that can have a thumbnail.
pub open spec fn thumbnail_kind(pid: u64) -> spec_fn(AssetView) -> bool {
    |a: AssetView| a.project_id == pid && previewable(a.asset_type)
}

/// Assets of project `pid` that can have a thumbnail and were never attempted.
pub open spec fn needs_thumbnail(pid: u64) -> spec_fn(AssetView) -> bool {
    |a: AssetView| a.project_id == pid && previewable(a.asset_type) && a.thumbnail_path is None
}

/// Edges leaving asset `id`.
pub open spec fn leaves(id: u64) -> spec_fn(DependencyView) -> bool {
    |d: DependencyView| d.source_asset_id == id
}

/// Edges entering asset `id`.
pub open spec fn enters(id: u64) -> spec_fn(DependencyView) -> bool {
    |d: DependencyView| d.target_asset_id == id
}

/// Edges that do not leave asset `id`.
pub open spec fn not_leaving(id: u64) -> spec_fn(DependencyView) -> bool {
    |d: DependencyView| d.source_asset_id != id
}

/// The row that replaces `prev` when `row` is written at its path: the incoming
/// fields under the old id; the thumbnail is kept only when neither the
/// modification time nor the fingerprint changed; the guid is dropped when
/// another asset of the project holds it.
pub open spec fn merged(prev: AssetView, row: AssetView, keep_guid: bool) -> AssetView {
    AssetView {
        id: prev.id,
        thumbnail_path: if prev.modified_time == row.modified_time && prev.content_hash
            == row.content_hash {
            prev.thumbnail_path
        } else {
            None
        },
        guid: if keep_guid {
            row.guid
        } else {
            None
        },
        ..row
    }
}

/// Two rows hold the same file data: everything but the id, the thumbnail
/// and the guid, which the index assigns.
pub open spec fn same_content(a: AssetView, r: AssetView) -> bool {
    a == AssetView { id: a.id, thumbnail_path: a.thumbnail_path, guid: a.guid, ..r }
}

/// No row after position `k` of `rows`, below `end`, is for the same project and path.
pub open spec fn last_for_path(rows: Seq<Asset>, k: int, end: int) -> bool {
    forall|m: int| k < m < end ==> !(rows[m].project_id == rows[k].project_id && rows[m].absolute_path@ == rows[k].absolute_path@)
}

/// The row that a new path gets: the incoming fields under a fresh id, with no
/// thumbnail; the guid is dropped when another asset of the project holds it.
pub open spec fn inserted(id: u64, row: AssetView, keep_guid: bool) -> AssetView {
    AssetView {
        id,
        thumbnail_path: None,
        guid: if keep_guid {
            row.guid
        } else {
            None
        },
        ..row
    }
}

impl Store {
    pub open spec fn assets_m(&self) -> Seq<AssetView> {
        assets_view(self.assets@)
    }

    pub open spec fn deps_m(&self) -> Seq<DependencyView> {
        deps_view(self.deps@)
    }

    pub open spec fn has_project(&self, pid: u64) -> bool {
        exists|i: int| 0 <= i < self.projects@.len() && self.projects@[i].id == pid
    }

    pub open spec fn has_asset(&self, id: u64) -> bool {
        exists|i: int| 0 <= i < self.assets@.len() && self.assets@[i].id == id
    }

    /// An edge that joins two assets of one project.
    pub open spec fn edge_ok(&self, d: DependencyView) -> bool {
        exists|i: int, j: int|
            0 <= i < self.assets@.len() && 0 <= j < self.assets@.len() && self.assets@[i].id
                == d.source_asset_id && self.assets@[j].id == d.target_asset_id
                && self.assets@[i].project_id == self.assets@[j].project_id
    }

    /// The index's invariant.
    pub open spec fn wf(&self) -> bool {
        &&& forall|i: int, j: int|
            0 <= i < j < self.projects@.len() ==> self.projects@[i].id != self.projects@[j].id
                && self.projects@[i].root_path@ != self.projects@[j].root_path@
        &&& forall|i: int| 0 <= i < self.projects@.len() ==> self.projects@[i].id < self.next_id
        &&& forall|i: int| 0 <= i < self.assets@.len() ==> self.assets@[i].id < self.next_id
        &&& forall|i: int|
            0 <= i < self.assets@.len() ==> self.has_project(#[trigger] self.assets@[i].project_id)
        &&& forall|i: int, j: int|
            0 <= i < self.assets@.len() && 0 <= j < self.assets@.len() && i != j ==> {
                &&& self.assets@[i].id != self.assets@[j].id
                &&& self.assets@[i].project_id == self.assets@[j].project_id
                    ==> self.assets@[i].absolute_path@ != self.assets@[j].absolute_path@
                &&& self.assets@[i].project_id == self.assets@[j].project_id
                    && self.assets@[i].guid is Some ==> opt_view(self.assets@[i].guid) != opt_view(
                    self.assets@[j].guid,
                )
            }
        &&& forall|k: int| 0 <= k < self.deps@.len() ==> self.edge_ok(#[trigger] self.deps@[k]@)
    }

    /// An empty index.
    pub fn new() -> (s: Store)
        ensures
            s.wf(),
            s.projects@.len() == 0,
            s.assets@.len() == 0,
            s.deps@.len() == 0,
    {
        Store { projects: Vec::new(), assets: Vec::new(), deps: Vec::new(), next_id: 1 }
    }

    fn project_index_by_path(&self, root_path: &String) -> (r: Option<usize>)
        ensures
            match r {
                Some(i) => i < self.projects@.len() && self.projects@[i as int].root_path@
                    == root_path@,
                None => forall|i: int|
                    0 <= i < self.projects@.len() ==> self.projects@[i].root_path@ != root_path@,
            },
    {
        let mut i: usize = 0;
        while i < self.projects.len()
            invariant
                i <= self.projects@.len(),
                forall|j: int| 0 <= j < i ==> self.projects@[j].root_path@ != root_path@,
            decreases self.projects@.len() - i,
        {
            if same_text(&self.projects[i].root_path, root_path) {
                return Some(i);
            }
            i = i + 1;
        }
        None
    }

    fn project_index(&self, pid: u64) -> (r: Option<usize>)
        ensures
            match r {
                Some(i) => i < self.projects@.len() && self.projects@[i as int].id == pid,
                None => !self.has_project(pid),
            },
    {
        let mut i: usize = 0;
        while i < self.projects.len()
            invariant
                i <= self.projects@.len(),
                forall|j: int| 0 <= j < i ==> self.projects@[j].id != pid,
            decreases self.projects@.len() - i,
        {
            if self.projects[i].id == pid {
                return Some(i);
            }
            i = i + 1;
        }
        None
    }

    /// The project rooted at `root_path`, created when there is none.
    pub fn get_or_create_project(&mut self, root_path: &String, name: &String) -> (r: Result<
        Project,
        LibraryError,
    >)
        requires
            old(self).wf(),
        ensures
            final(self).wf(),
            final(self).assets == old(self).assets,
            final(self).deps == old(self).deps,
            match r {
                Ok(p) => final(self).has_project(p.id) && p.root_path@ == root_path@ && (exists|
                    i: int,
                |
                    0 <= i < final(self).projects@.len() && final(self).projects@[i]@ == p@),
                Err(e) => e == LibraryError::StoreError && *final(self) == *old(self),
            },
            (exists|i: int|
                0 <= i < old(self).projects@.len() && old(self).projects@[i].root_path@
                    == root_path@) ==> *final(self) == *old(self) && r is Ok,
            forall|i: int|
                0 <= i < old(self).projects@.len() && old(self).projects@[i].root_path@ == root_path@
                    ==> r == Ok::<Project, LibraryError>(r->Ok_0) && r->Ok_0@ == old(self).projects@[i]@,
            (forall|i: int|
                0 <= i < old(self).projects@.len() ==> old(self).projects@[i].root_path@
                    != root_path@) && old(self).next_id < u64::MAX ==> r is Ok && r->Ok_0@ == (
            ProjectView {
                id: old(self).next_id,
                root_path: root_path@,
                name: name@,
                last_scan_time: None,
                file_count: 0,
            }) && final(self).projects@.len() == old(self).projects@.len() + 1
                && final(self).projects@.drop_last() == old(self).projects@
                && final(self).projects@.last()@ == r->Ok_0@,
    {
        match self.project_index_by_path(root_path) {
            Some(i) => {
                let p = self.projects[i].copy();
                Ok(p)
            },
            None => {
                if self.next_id == u64::MAX {
                    return Err(LibraryError::StoreError);
                }
                let id = self.next_id;
                let p = Project {
                    id,
                    root_path: root_path.clone(),
                    name: name.clone(),
                    last_scan_time: None,
                    file_count: 0,
                };
                let q = p.copy();
                let ghost pre = *self;
                self.projects.push(p);
                self.next_id = id + 1;
                assert(self.projects@[self.projects@.len() - 1]@ == q@);
                assert(self.projects@.drop_last() =~= pre.projects@);
                assert forall|i: int| 0 <= i < self.assets@.len() implies self.has_project(
                    #[trigger] self.assets@[i].project_id,
                ) by {
                    let j = choose|j: int|
                        0 <= j < pre.projects@.len() && pre.projects@[j].id
                            == pre.assets@[i].project_id;
                    assert(self.projects@[j] == pre.projects@[j]);
                }
                assert forall|k: int| 0 <= k < self.deps@.len() implies self.edge_ok(
                    #[trigger] self.deps@[k]@,
                ) by {
                    assert(pre.edge_ok(pre.deps@[k]@));
                }
                Ok(q)
            },
        }
    }

    /// The project with id `pid`.
    pub fn get_project(&self, pid: u64) -> (r: Option<Project>)
        ensures
            r is Some <==> self.has_project(pid),
            r matches Some(p) ==> p.id == pid && exists|i: int|
                0 <= i < self.projects@.len() && self.projects@[i]@ == p@,
    {
        match self.project_index(pid) {
            Some(i) => Some(self.projects[i].copy()),
            None => None,
        }
    }

    /// The project rooted at `root_path`.
    pub fn get_project_by_path(&self, root_path: &String) -> (r: Option<Project>)
        ensures
            r is Some <==> exists|i: int|
                0 <= i < self.projects@.len() && self.projects@[i].root_path@ == root_path@,
            r matches Some(p) ==> p.root_path@ == root_path@ && exists|i: int|
                0 <= i < self.projects@.len() && self.projects@[i]@ == p@,
    {
        match self.project_index_by_path(root_path) {
            Some(i) => Some(self.projects[i].copy()),
            None => None,
        }
    }

    /// Records the end of a completed scan of project `pid`.
    pub fn update_project_scan_time(&mut self, pid: u64, file_count: u64, now: i64) -> (r: Result<
        (),
        LibraryError,
    >)
        requires
            old(self).wf(),
        ensures
            final(self).wf(),
            final(self).assets == old(self).assets,
            final(self).deps == old(self).deps,
            r is Ok <==> old(self).has_project(pid),
            r is Err ==> r == Err::<(), LibraryError>(LibraryError::InvalidProject) && *final(self)
                == *old(self),
            r is Ok ==> final(self).projects@.len() == old(self).projects@.len() && forall|i: int|
                0 <= i < old(self).projects@.len() ==> final(self).projects@[i]@ == if old(
                    self,
                ).projects@[i].id == pid {
                    ProjectView {
                        last_scan_time: Some(now),
                        file_count,
                        ..old(self).projects@[i]@
                    }
                } else {
                    old(self).projects@[i]@
                },
    {
        match self.project_index(pid) {
            None => Err(LibraryError::InvalidProject),
            Some(i) => {
                let ghost pre = *self;
                let old_p = self.projects[i].copy();
                let p = Project { last_scan_time: Some(now), file_count, ..old_p };
                self.projects.set(i, p);
                assert forall|j: int| 0 <= j < self.assets@.len() implies self.has_project(
                    #[trigger] self.assets@[j].project_id,
                ) by {
                    let k = choose|k: int|
                        0 <= k < pre.projects@.len() && pre.projects@[k].id
                            == pre.assets@[j].project_id;
                    assert(self.projects@[k].id == pre.projects@[k].id);
                }
                assert forall|k: int| 0 <= k < self.deps@.len() implies self.edge_ok(
                    #[trigger] self.deps@[k]@,
                ) by {
                    assert(pre.edge_ok(pre.deps@[k]@));
                }
                Ok(())
            },
        }
    }

    /// Position of the asset of project `pid` at `path`, if any.
    pub open spec fn path_pos(&self, pid: u64, path: Seq<char>) -> Option<int> {
        if exists|i: int|
            0 <= i < self.assets@.len() && self.assets@[i].project_id == pid
                && self.assets@[i].absolute_path@ == path {
            Some(
                choose|i: int|
                    0 <= i < self.assets@.len() && self.assets@[i].project_id == pid
                        && self.assets@[i].absolute_path@ == path,
            )
        } else {
            None
        }
    }

    /// Some asset of project `pid`, other than the one at position `except`, has this guid.
    pub open spec fn guid_held(&self, pid: u64, guid: Option<Seq<char>>, except: int) -> bool {
        guid is Some && exists|j: int|
            0 <= j < self.assets@.len() && j != except && self.assets@[j].project_id == pid
                && opt_view(self.assets@[j].guid) == guid
    }

    fn asset_index(&self, id: u64) -> (r: Option<usize>)
        ensures
            match r {
                Some(i) => i < self.assets@.len() && self.assets@[i as int].id == id,
                None => !self.has_asset(id),
            },
    {
        let mut i: usize = 0;
        while i < self.assets.len()
            invariant
                i <= self.assets@.len(),
                forall|j: int| 0 <= j < i ==> self.assets@[j].id != id,
            decreases self.assets@.len() - i,
        {
            if self.assets[i].id == id {
                return Some(i);
            }
            i = i + 1;
        }
        None
    }

    fn path_index(&self, pid: u64, path: &String) -> (r: Option<usize>)
        requires
            self.wf(),
        ensures
            r matches Some(i) ==> self.path_pos(pid, path@) == Some(i as int),
            r is None ==> self.path_pos(pid, path@) is None,
    {
        let mut i: usize = 0;
        while i < self.assets.len()
            invariant
                self.wf(),
                i <= self.assets@.len(),
                forall|j: int|
                    0 <= j < i ==> !(self.assets@[j].project_id == pid
                        && self.assets@[j].absolute_path@ == path@),
            decreases self.assets@.len() - i,
        {
            if self.assets[i].project_id == pid && same_text(&self.assets[i].absolute_path, path) {
                assert(self.path_pos(pid, path@) == Some(i as int)) by {
                    let c = choose|c: int|
                        0 <= c < self.assets@.len() && self.assets@[c].project_id == pid
                            && self.assets@[c].absolute_path@ == path@;
                    if c != i as int {
                        assert(self.assets@[c].absolute_path@ != self.assets@[i as int].absolute_path@);
                    }
                }
                return Some(i);
            }
            i = i + 1;
        }
        None
    }

    fn guid_in_use(&self, pid: u64, guid: &Option<String>, except: Option<usize>) -> (r: bool)
        ensures
            r == self.guid_held(
                pid,
                opt_view(*guid),
                match except {
                    Some(e) => e as int,
                    None => -1,
                },
            ),
    {
        let ghost ex: int = match except {
            Some(e) => e as int,
            None => -1,
        };
        match guid {
            None => false,
            Some(g) => {
                let mut i: usize = 0;
                while i < self.assets.len()
                    invariant
                        i <= self.assets@.len(),
                        *guid == Some(*g),
                        ex == match except {
                            Some(e) => e as int,
                            None => -1,
                        },
                        forall|j: int|
                            0 <= j < i && j != ex && self.assets@[j].project_id == pid
                                ==> opt_view(self.assets@[j].guid) != Some(g@),
                    decreases self.assets@.len() - i,
                {
                    let skip = match except {
                        Some(e) => e == i,
                        None => false,
                    };
                    if !skip && self.assets[i].project_id == pid {
                        match &self.assets[i].guid {
                            Some(h) => {
                                if same_text(h, g) {
                                    return true;
                                }
                            },
                            None => {},
                        }
                    }
                    i = i + 1;
                }
                false
            },
        }
    }

    /// The asset with id `id`.
    pub fn get_asset(&self, id: u64) -> (r: Option<Asset>)
        ensures
            r is Some <==> self.has_asset(id),
            r matches Some(a) ==> a.id == id && exists|i: int|
                0 <= i < self.assets@.len() && self.assets@[i]@ == a@,
    {
        match self.asset_index(id) {
            Some(i) => Some(self.assets[i].copy()),
            None => None,
        }
    }

    /// The asset of project `pid` whose guid is `guid`.
    pub fn get_asset_by_guid(&self, pid: u64, guid: &String) -> (r: Option<Asset>)
        requires
            self.wf(),
        ensures
            r is Some <==> exists|i: int|
                0 <= i < self.assets@.len() && self.assets@[i].project_id == pid && opt_view(
                    self.assets@[i].guid,
                ) == Some(guid@),
            r matches Some(a) ==> exists|i: int|
                0 <= i < self.assets@.len() && self.assets@[i]@ == a@ && a.project_id == pid
                    && opt_view(a.guid) == Some(guid@),
    {
        let mut i: usize = 0;
        while i < self.assets.len()
            invariant
                i <= self.assets@.len(),
                forall|j: int|
                    0 <= j < i && self.assets@[j].project_id == pid ==> opt_view(
                        self.assets@[j].guid,
                    ) != Some(guid@),
            decreases self.assets@.len() - i,
        {
            if self.assets[i].project_id == pid {
                match &self.assets[i].guid {
                    Some(h) => {
                        if same_text(h, guid) {
                            return Some(self.assets[i].copy());
                        }
                    },
                    None => {},
                }
            }
            i = i + 1;
        }
        None
    }

    /// Inserts the row, or updates the asset of its project at its path.
    pub fn upsert_asset(&mut self, row: Asset) -> (r: Result<u64, LibraryError>)
        requires
            old(self).wf(),
        ensures
            final(self).wf(),
            final(self).projects == old(self).projects,
            final(self).deps == old(self).deps,
            old(self).next_id <= final(self).next_id <= old(self).next_id + 1,
            !old(self).has_project(row.project_id) ==> r == Err::<u64, LibraryError>(
                LibraryError::InvalidProject,
            ) && *final(self) == *old(self),
            old(self).has_project(row.project_id) ==> match old(self).path_pos(
                row.project_id,
                row.absolute_path@,
            ) {
                Some(i) => {
                    &&& r == Ok::<u64, LibraryError>(old(self).assets@[i].id)
                    &&& final(self).assets@.len() == old(self).assets@.len()
                    &&& forall|j: int|
                        0 <= j < old(self).assets@.len() && j != i ==> final(self).assets@[j]
                            == old(self).assets@[j]
                    &&& final(self).assets@[i]@ == merged(
                        old(self).assets@[i]@,
                        row@,
                        !old(self).guid_held(row.project_id, opt_view(row.guid), i),
                    )
                },
                None => {
                    &&& old(self).next_id == u64::MAX ==> r == Err::<u64, LibraryError>(
                        LibraryError::StoreError,
                    ) && *final(self) == *old(self)
                    &&& old(self).next_id < u64::MAX ==> {
                        &&& r == Ok::<u64, LibraryError>(old(self).next_id)
                        &&& final(self).next_id == old(self).next_id + 1
                        &&& final(self).assets@.len() == old(self).assets@.len() + 1
                        &&& final(self).assets@.drop_last() == old(self).assets@
                        &&& final(self).assets@.last()@ == inserted(
                            old(self).next_id,
                            row@,
                            !old(self).guid_held(row.project_id, opt_view(row.guid), -1),
                        )
                    }
                },
            },
    {
        if self.project_index(row.project_id).is_none() {
            return Err(LibraryError::InvalidProject);
        }
        let ghost pre = *self;
        match self.path_index(row.project_id, &row.absolute_path) {
            Some(i) => {
                let keep = !self.guid_in_use(row.project_id, &row.guid, Some(i));
                let prev_id = self.assets[i].id;
                let same = self.assets[i].modified_time == row.modified_time && same_text(
                    &self.assets[i].content_hash,
                    &row.content_hash,
                );
                let thumb = if same {
                    self.assets[i].thumbnail_path.clone()
                } else {
                    None
                };
                let g = if keep {
                    row.guid
                } else {
                    None
                };
                let a = Asset { id: prev_id, thumbnail_path: thumb, guid: g, ..row };
                self.assets.set(i, a);
                proof {
                    self.lemma_same_keys_wf(pre, i as int);
                }
                Ok(prev_id)
            },
            None => {
                if self.next_id == u64::MAX {
                    return Err(LibraryError::StoreError);
                }
                let keep = !self.guid_in_use(row.project_id, &row.guid, None);
                let id = self.next_id;
                let g = if keep {
                    row.guid
                } else {
                    None
                };
                let a = Asset { id, thumbnail_path: None, guid: g, ..row };
                self.assets.push(a);
                self.next_id = id + 1;
                assert(self.assets@.drop_last() =~= pre.assets@);
                proof {
                    self.lemma_push_wf(pre);
                }
                Ok(id)
            },
        }
    }

    proof fn lemma_same_keys_wf(&self, pre: Store, i: int)
        requires
            pre.wf(),
            self.projects == pre.projects,
            self.deps == pre.deps,
            self.next_id == pre.next_id,
            0 <= i < pre.assets@.len(),
            self.assets@.len() == pre.assets@.len(),
            forall|j: int| 0 <= j < pre.assets@.len() && j != i ==> self.assets@[j] == pre.assets@[j],
            self.assets@[i].id == pre.assets@[i].id,
            self.assets@[i].project_id == pre.assets@[i].project_id,
            self.assets@[i].absolute_path@ == pre.assets@[i].absolute_path@,
            !pre.guid_held(self.assets@[i].project_id, opt_view(self.assets@[i].guid), i),
        ensures
            self.wf(),
    {
        assert forall|j: int| 0 <= j < self.assets@.len() implies self.has_project(
            #[trigger] self.assets@[j].project_id,
        ) by {
            assert(pre.has_project(pre.assets@[j].project_id));
        }
        assert forall|k: int| 0 <= k < self.deps@.len() implies self.edge_ok(
            #[trigger] self.deps@[k]@,
        ) by {
            assert(pre.edge_ok(pre.deps@[k]@));
            let (a, b) = choose|a: int, b: int|
                0 <= a < pre.assets@.len() && 0 <= b < pre.assets@.len() && pre.assets@[a].id
                    == pre.deps@[k]@.source_asset_id && pre.assets@[b].id
                    == pre.deps@[k]@.target_asset_id && pre.assets@[a].project_id
                    == pre.assets@[b].project_id;
            assert(self.assets@[a].id == pre.assets@[a].id);
            assert(self.assets@[b].id == pre.assets@[b].id);
        }
        assert forall|x: int, y: int|
            0 <= x < self.assets@.len() && 0 <= y < self.assets@.len() && x != y && self.assets@[x].project_id
                == self.assets@[y].project_id && self.assets@[x].guid is Some implies opt_view(
            self.assets@[x].guid,
        ) != opt_view(self.assets@[y].guid) by {
            if x == i {
                assert(!(0 <= y < pre.assets@.len() && y != i && pre.assets@[y].project_id
                    == self.assets@[i].project_id && opt_view(pre.assets@[y].guid) == opt_view(
                    self.assets@[i].guid,
                )));
            } else if y == i {
                assert(!(0 <= x < pre.assets@.len() && x != i && pre.assets@[x].project_id
                    == self.assets@[i].project_id && opt_view(pre.assets@[x].guid) == opt_view(
                    self.assets@[i].guid,
                )));
            }
        }
    }

    proof fn lemma_push_wf(&self, pre: Store)
        requires
            pre.wf(),
            pre.next_id < u64::MAX,
            self.projects == pre.projects,
            self.deps == pre.deps,
            self.next_id == pre.next_id + 1,
            self.assets@.len() == pre.assets@.len() + 1,
            self.assets@.drop_last() == pre.assets@,
            self.assets@.last().id == pre.next_id,
            pre.has_project(self.assets@.last().project_id),
            pre.path_pos(self.assets@.last().project_id, self.assets@.last().absolute_path@) is None,
            !pre.guid_held(self.assets@.last().project_id, opt_view(self.assets@.last().guid), -1),
        ensures
            self.wf(),
    {
        let n = pre.assets@.len() as int;
        assert forall|j: int| 0 <= j < n implies self.assets@[j] == pre.assets@[j] by {
            assert(self.assets@.drop_last()[j] == self.assets@[j]);
        }
        assert forall|j: int| 0 <= j < self.assets@.len() implies self.has_project(
            #[trigger] self.assets@[j].project_id,
        ) by {
            if j < n {
                assert(pre.has_project(pre.assets@[j].project_id));
            }
        }
        assert forall|k: int| 0 <= k < self.deps@.len() implies self.edge_ok(
            #[trigger] self.deps@[k]@,
        ) by {
            assert(pre.edge_ok(pre.deps@[k]@));
            let (a, b) = choose|a: int, b: int|
                0 <= a < pre.assets@.len() && 0 <= b < pre.assets@.len() && pre.assets@[a].id
                    == pre.deps@[k]@.source_asset_id && pre.assets@[b].id
                    == pre.deps@[k]@.target_asset_id && pre.assets@[a].project_id
                    == pre.assets@[b].project_id;
            assert(self.assets@[a] == pre.assets@[a]);
            assert(self.assets@[b] == pre.assets@[b]);
        }
        assert forall|x: int, y: int|
            0 <= x < self.assets@.len() && 0 <= y < self.assets@.len() && x != y implies {
                &&& self.assets@[x].id != self.assets@[y].id
                &&& self.assets@[x].project_id == self.assets@[y].project_id
                    ==> self.assets@[x].absolute_path@ != self.assets@[y].absolute_path@
                &&& self.assets@[x].project_id == self.assets@[y].project_id
                    && self.assets@[x].guid is Some ==> opt_view(self.assets@[x].guid) != opt_view(
                    self.assets@[y].guid,
                )
            } by {
            if x == n {
                assert(self.assets@[y] == pre.assets@[y]);
            } else if y == n {
                assert(self.assets@[x] == pre.assets@[x]);
            } else {
                assert(self.assets@[x] == pre.assets@[x]);
                assert(self.assets@[y] == pre.assets@[y]);
            }
        }
    }

    /// The edges from `src` among `edges` that join two assets of one project,
    /// in order and without repeats.
    pub open spec fn accepted_edges(&self, src: u64, edges: Seq<DependencyView>) -> Seq<
        DependencyView,
    >
        decreases edges.len(),
    {
        if edges.len() == 0 {
            Seq::empty()
        } else {
            let prev = self.accepted_edges(src, edges.drop_last());
            let e = edges.last();
            if e.source_asset_id == src && self.edge_ok(e) && !prev.contains(e) {
                prev.push(e)
            } else {
                prev
            }
        }
    }

    fn edge_ok_exec(&self, e: &Dependency) -> (r: bool)
        requires
            self.wf(),
        ensures
            r == self.edge_ok(e@),
    {
        match (self.asset_index(e.source_asset_id), self.asset_index(e.target_asset_id)) {
            (Some(a), Some(b)) => {
                let r = self.assets[a].project_id == self.assets[b].project_id;
                assert(r == self.edge_ok(e@)) by {
                    if self.edge_ok(e@) {
                        let (x, y) = choose|x: int, y: int|
                            0 <= x < self.assets@.len() && 0 <= y < self.assets@.len()
                                && self.assets@[x].id == e@.source_asset_id && self.assets@[y].id
                                == e@.target_asset_id && self.assets@[x].project_id
                                == self.assets@[y].project_id;
                        if x != a as int {
                            assert(self.assets@[x].id != self.assets@[a as int].id);
                        }
                        if y != b as int {
                            assert(self.assets@[y].id != self.assets@[b as int].id);
                        }
                    }
                }
                r
            },
            _ => false,
        }
    }

    /// Replaces the edges leaving `src` by the given ones. Edges that do not
    /// leave `src`, or do not join two assets of one project, are dropped, and
    /// repeats are coalesced.
    pub fn replace_dependencies(&mut self, src: u64, edges: &Vec<Dependency>)
        requires
            old(self).wf(),
        ensures
            final(self).wf(),
            final(self).projects == old(self).projects,
            final(self).assets == old(self).assets,
            final(self).next_id == old(self).next_id,
            final(self).deps_m() == old(self).deps_m().filter(not_leaving(src)) + old(
                self,
            ).accepted_edges(src, deps_view(edges@)),
    {
        let ghost pre = *self;
        let mut kept: Vec<Dependency> = Vec::new();
        let mut i: usize = 0;
        while i < self.deps.len()
            invariant
                *self == pre,
                pre.wf(),
                i <= self.deps@.len(),
                deps_view(kept@) == self.deps_m().subrange(0, i as int).filter(not_leaving(src)),
                forall|k: int| 0 <= k < kept@.len() ==> self.edge_ok(#[trigger] kept@[k]@),
            decreases self.deps@.len() - i,
        {
            proof {
                lemma_filter_step(self.deps_m(), i as int, not_leaving(src));
                assert(self.edge_ok(self.deps@[i as int]@));
            }
            if self.deps[i].source_asset_id != src {
                kept.push(self.deps[i].copy());
            }
            i = i + 1;
            assert(deps_view(kept@) =~= self.deps_m().subrange(0, i as int).filter(
                not_leaving(src),
            ));
        }
        assert(self.deps_m().subrange(0, self.deps@.len() as int) =~= self.deps_m());
        let mut added: Vec<Dependency> = Vec::new();
        let mut j: usize = 0;
        while j < edges.len()
            invariant
                *self == pre,
                pre.wf(),
                j <= edges@.len(),
                deps_view(added@) == self.accepted_edges(
                    src,
                    deps_view(edges@).subrange(0, j as int),
                ),
                forall|k: int| 0 <= k < added@.len() ==> self.edge_ok(#[trigger] added@[k]@),
            decreases edges@.len() - j,
        {
            let e = &edges[j];
            let ghost ev = deps_view(edges@).subrange(0, j as int + 1);
            assert(ev.drop_last() =~= deps_view(edges@).subrange(0, j as int));
            assert(ev.last() == e@);
            if e.source_asset_id == src && self.edge_ok_exec(e) {
                let mut seen = false;
                let mut k: usize = 0;
                while k < added.len()
                    invariant
                        k <= added@.len(),
                        seen == exists|m: int| 0 <= m < k && added@[m]@ == e@,
                    decreases added@.len() - k,
                {
                    if added[k].same_edge(e) {
                        seen = true;
                    }
                    k = k + 1;
                }
                assert(seen == deps_view(added@).contains(e@)) by {
                    if seen {
                        let m = choose|m: int| 0 <= m < k && added@[m]@ == e@;
                        assert(deps_view(added@)[m] == e@);
                    }
                    if deps_view(added@).contains(e@) {
                        let m = choose|m: int|
                            0 <= m < deps_view(added@).len() && deps_view(added@)[m] == e@;
                        assert(added@[m]@ == e@);
                    }
                }
                if !seen {
                    added.push(e.copy());
                }
            }
            j = j + 1;
            assert(deps_view(added@) =~= self.accepted_edges(
                src,
                deps_view(edges@).subrange(0, j as int),
            ));
        }
        assert(deps_view(edges@).subrange(0, edges@.len() as int) =~= deps_view(edges@));
        let ghost kv = kept@;
        kept.append(&mut added);
        self.deps = kept;
        assert(self.deps_m() =~= pre.deps_m().filter(not_leaving(src)) + pre.accepted_edges(
            src,
            deps_view(edges@),
        ));
        assert forall|k: int| 0 <= k < self.deps@.len() implies self.edge_ok(
            #[trigger] self.deps@[k]@,
        ) by {
            if k < kv.len() {
                assert(self.deps@[k] == kv[k]);
            }
        }
    }

    /// The edges leaving asset `id`, in storage order.
    pub fn get_dependencies(&self, id: u64) -> (r: Vec<Dependency>)
        ensures
            deps_view(r@) == self.deps_m().filter(leaves(id)),
    {
        let mut out: Vec<Dependency> = Vec::new();
        let mut i: usize = 0;
        while i < self.deps.len()
            invariant
                i <= self.deps@.len(),
                deps_view(out@) == self.deps_m().subrange(0, i as int).filter(leaves(id)),
            decreases self.deps@.len() - i,
        {
            proof {
                lemma_filter_step(self.deps_m(), i as int, leaves(id));
            }
            if self.deps[i].source_asset_id == id {
                out.push(self.deps[i].copy());
            }
            i = i + 1;
            assert(deps_view(out@) =~= self.deps_m().subrange(0, i as int).filter(leaves(id)));
        }
        assert(self.deps_m().subrange(0, self.deps@.len() as int) =~= self.deps_m());
        out
    }

    /// The edges entering asset `id`, in storage order.
    pub fn get_dependents(&self, id: u64) -> (r: Vec<Dependency>)
        ensures
            deps_view(r@) == self.deps_m().filter(enters(id)),
    {
        let mut out: Vec<Dependency> = Vec::new();
        let mut i: usize = 0;
        while i < self.deps.len()
            invariant
                i <= self.deps@.len(),
                deps_view(out@) == self.deps_m().subrange(0, i as int).filter(enters(id)),
            decreases self.deps@.len() - i,
        {
            proof {
                lemma_filter_step(self.deps_m(), i as int, enters(id));
            }
            if self.deps[i].target_asset_id == id {
                out.push(self.deps[i].copy());
            }
            i = i + 1;
            assert(deps_view(out@) =~= self.deps_m().subrange(0, i as int).filter(enters(id)));
        }
        assert(self.deps_m().subrange(0, self.deps@.len() as int) =~= self.deps_m());
        out
    }

    /// Up to `limit` assets of project `pid` that can have a thumbnail and were
    /// never attempted, in storage order.
    pub fn get_assets_needing_thumbnails(&self, pid: u64, limit: usize) -> (r: Vec<Asset>)
        ensures
            assets_view(r@) == first_n(self.assets_m().filter(needs_thumbnail(pid)), limit as nat),
    {
        let mut out: Vec<Asset> = Vec::new();
        let mut i: usize = 0;
        while i < self.assets.len()
            invariant
                i <= self.assets@.len(),
                assets_view(out@) == first_n(
                    self.assets_m().subrange(0, i as int).filter(needs_thumbnail(pid)),
                    limit as nat,
                ),
            decreases self.assets@.len() - i,
        {
            proof {
                lemma_filter_step(self.assets_m(), i as int, needs_thumbnail(pid));
            }
            let ghost f = self.assets_m().subrange(0, i as int).filter(needs_thumbnail(pid));
            let ghost f2 = self.assets_m().subrange(0, i as int + 1).filter(needs_thumbnail(pid));
            let a = &self.assets[i];
            let take = a.project_id == pid && (a.asset_type == AssetType::Texture || a.asset_type
                == AssetType::Material) && a.thumbnail_path.is_none();
            assert(take == needs_thumbnail(pid)(self.assets_m()[i as int]));
            if take && out.len() < limit {
                out.push(a.copy());
            }
            proof {
                if f.len() < limit {
                    assert(first_n(f, limit as nat) == f);
                } else {
                    assert(f2.subrange(0, limit as int) =~= f.subrange(0, limit as int));
                }
            }
            i = i + 1;
            assert(assets_view(out@) =~= first_n(
                self.assets_m().subrange(0, i as int).filter(needs_thumbnail(pid)),
                limit as nat,
            ));
        }
        assert(self.assets_m().subrange(0, self.assets@.len() as int) =~= self.assets_m());
        out
    }

    /// Number of assets of project `pid` that can have a thumbnail.
    pub fn count_thumbnail_assets(&self, pid: u64) -> (r: usize)
        ensures
            r == self.assets_m().filter(thumbnail_kind(pid)).len(),
    {
        let mut n: usize = 0;
        let mut i: usize = 0;
        while i < self.assets.len()
            invariant
                i <= self.assets@.len(),
                n == self.assets_m().subrange(0, i as int).filter(thumbnail_kind(pid)).len(),
                n <= i,
            decreases self.assets@.len() - i,
        {
            proof {
                lemma_filter_step(self.assets_m(), i as int, thumbnail_kind(pid));
            }
            let a = &self.assets[i];
            if a.project_id == pid && (a.asset_type == AssetType::Texture || a.asset_type
                == AssetType::Material) {
                n = n + 1;
            }
            i = i + 1;
        }
        assert(self.assets_m().subrange(0, self.assets@.len() as int) =~= self.assets_m());
        n
    }

    fn set_thumbnail_at(&mut self, i: usize, value: Option<String>)
        requires
            old(self).wf(),
            i < old(self).assets@.len(),
        ensures
            final(self).wf(),
            final(self).projects == old(self).projects,
            final(self).deps == old(self).deps,
            final(self).next_id == old(self).next_id,
            final(self).assets@.len() == old(self).assets@.len(),
            forall|j: int|
                0 <= j < old(self).assets@.len() && j != i ==> final(self).assets@[j] == old(
                    self,
                ).assets@[j],
            final(self).assets@[i as int]@ == (AssetView {
                thumbnail_path: opt_view(value),
                ..old(self).assets@[i as int]@
            }),
    {
        let ghost pre = *self;
        let a = self.assets[i].copy();
        let b = Asset { thumbnail_path: value, ..a };
        self.assets.set(i, b);
        proof {
            assert(!pre.guid_held(
                self.assets@[i as int].project_id,
                opt_view(self.assets@[i as int].guid),
                i as int,
            ));
            self.lemma_same_keys_wf(pre, i as int);
        }
    }

    /// Forgets every thumbnail of project `pid`, sentinels included.
    pub fn clear_thumbnail_paths(&mut self, pid: u64)
        requires
            old(self).wf(),
        ensures
            final(self).wf(),
            final(self).projects == old(self).projects,
            final(self).deps == old(self).deps,
            final(self).assets@.len() == old(self).assets@.len(),
            forall|j: int|
                0 <= j < old(self).assets@.len() ==> final(self).assets@[j]@ == if old(
                    self,
                ).assets@[j].project_id == pid {
                    AssetView { thumbnail_path: None, ..old(self).assets@[j]@ }
                } else {
                    old(self).assets@[j]@
                },
    {
        let ghost pre = *self;
        let mut i: usize = 0;
        while i < self.assets.len()
            invariant
                self.wf(),
                self.projects == pre.projects,
                self.deps == pre.deps,
                self.assets@.len() == pre.assets@.len(),
                i <= self.assets@.len(),
                forall|j: int|
                    0 <= j < self.assets@.len() ==> self.assets@[j]@ == if j < i
                        && pre.assets@[j].project_id == pid {
                        AssetView { thumbnail_path: None, ..pre.assets@[j]@ }
                    } else {
                        pre.assets@[j]@
                    },
            decreases self.assets@.len() - i,
        {
            if self.assets[i].project_id == pid {
                self.set_thumbnail_at(i, None);
            }
            i = i + 1;
        }
    }

    /// Records a thumbnail path or a sentinel for asset `id`.
    pub fn update_asset_thumbnail(&mut self, id: u64, value: &String) -> (r: Result<
        (),
        LibraryError,
    >)
        requires
            old(self).wf(),
        ensures
            final(self).wf(),
            final(self).projects == old(self).projects,
            final(self).deps == old(self).deps,
            r is Ok <==> old(self).has_asset(id),
            r is Err ==> r == Err::<(), LibraryError>(LibraryError::AssetNotFound(id))
                && *final(self) == *old(self),
            r is Ok ==> final(self).assets@.len() == old(self).assets@.len() && forall|j: int|
                0 <= j < old(self).assets@.len() ==> final(self).assets@[j]@ == if old(
                    self,
                ).assets@[j].id == id {
                    AssetView { thumbnail_path: Some(value@), ..old(self).assets@[j]@ }
                } else {
                    old(self).assets@[j]@
                },
    {
        match self.asset_index(id) {
            None => Err(LibraryError::AssetNotFound(id)),
            Some(i) => {
                let ghost pre = *self;
                self.set_thumbnail_at(i, Some(value.clone()));
                assert forall|j: int| 0 <= j < pre.assets@.len() && j != i implies pre.assets@[j].id
                    != id by {
                    assert(pre.assets@[j].id != pre.assets@[i as int].id);
                }
                Ok(())
            },
        }
    }

    /// Writes a batch of rows as one transaction: either every row is written
    /// (later rows of the batch win over earlier ones at the same path) or,
    /// when a row names an unknown project or the ids would run out, none is.
    pub fn upsert_assets(&mut self, batch: Vec<Asset>) -> (r: Result<usize, LibraryError>)
        requires
            old(self).wf(),
        ensures
            final(self).wf(),
            final(self).projects == old(self).projects,
            final(self).deps == old(self).deps,
            (exists|k: int| 0 <= k < batch@.len() && !old(self).has_project(#[trigger] batch@[k].project_id))
                ==> r == Err::<usize, LibraryError>(LibraryError::InvalidProject) && *final(self) == *old(self),
            (forall|k: int| 0 <= k < batch@.len() ==> old(self).has_project(#[trigger] batch@[k].project_id))
                ==> (old(self).next_id as int + batch@.len() <= u64::MAX <==> r is Ok),
            r is Err ==> *final(self) == *old(self),
            r is Ok ==> {
                &&& r == Ok::<usize, LibraryError>(batch@.len() as usize)
                &&& final(self).assets@.len() >= old(self).assets@.len()
                &&& forall|i: int| 0 <= i < old(self).assets@.len() ==> {
                    &&& (#[trigger] final(self).assets@[i]).id == old(self).assets@[i].id
                    &&& final(self).assets@[i].project_id == old(self).assets@[i].project_id
                    &&& final(self).assets@[i].absolute_path@ == old(self).assets@[i].absolute_path@
                }
                &&& forall|k: int| 0 <= k < batch@.len() ==> exists|i: int|
                    0 <= i < final(self).assets@.len() && final(self).assets@[i].project_id == (#[trigger] batch@[k]).project_id
                        && final(self).assets@[i].absolute_path@ == batch@[k].absolute_path@
                &&& forall|k: int| 0 <= k < batch@.len() && last_for_path(batch@, k, batch@.len() as int) ==> exists|i: int|
                    0 <= i < final(self).assets@.len() && same_content(final(self).assets@[i]@, (#[trigger] batch@[k])@)
            },
    {
        let mut k: usize = 0;
        while k < batch.len()
            invariant
                self.wf(),
                *self == *old(self),
                k <= batch@.len(),
                forall|m: int| 0 <= m < k ==> self.has_project(#[trigger] batch@[m].project_id),
            decreases batch@.len() - k,
        {
            if self.project_index(batch[k].project_id).is_none() {
                return Err(LibraryError::InvalidProject);
            }
            k = k + 1;
        }
        if batch.len() as u64 > u64::MAX - self.next_id {
            return Err(LibraryError::StoreError);
        }
        let ghost pre = *self;
        let ghost rows = batch@;
        let n = batch.len();
        let mut done: usize = 0;
        let mut rest = batch;
        while rest.len() > 0
            invariant
                self.wf(),
                self.projects == pre.projects,
                self.deps == pre.deps,
                n == rows.len(),
                done + rest@.len() == n,
                rest@ == rows.subrange(done as int, n as int),
                forall|m: int| 0 <= m < n ==> pre.has_project(#[trigger] rows[m].project_id),
                self.next_id <= pre.next_id + done,
                pre.next_id + n <= u64::MAX,
                self.assets@.len() >= pre.assets@.len(),
                forall|i: int| 0 <= i < pre.assets@.len() ==> {
                    &&& (#[trigger] self.assets@[i]).id == pre.assets@[i].id
                    &&& self.assets@[i].project_id == pre.assets@[i].project_id
                    &&& self.assets@[i].absolute_path@ == pre.assets@[i].absolute_path@
                },
                forall|m: int| 0 <= m < done ==> exists|i: int|
                    0 <= i < self.assets@.len() && self.assets@[i].project_id == (#[trigger] rows[m]).project_id
                        && self.assets@[i].absolute_path@ == rows[m].absolute_path@,
                forall|m: int| 0 <= m < done && last_for_path(rows, m, done as int) ==> exists|i: int|
                    0 <= i < self.assets@.len() && same_content(self.assets@[i]@, (#[trigger] rows[m])@),
            decreases rest@.len(),
        {
            let row = rest.remove(0);
            assert(row == rows[done as int]);
            assert(rest@ =~= rows.subrange(done as int + 1, n as int));
            let ghost before = *self;
            let ghost pid = row.project_id;
            let ghost path = row.absolute_path@;
            assert(self.has_project(pid)) by {
                assert(pre.has_project(rows[done as int].project_id));
            }
            let r = self.upsert_asset(row);
            proof {
                assert forall|i: int| 0 <= i < before.assets@.len() implies {
                    &&& (#[trigger] self.assets@[i]).id == before.assets@[i].id
                    &&& self.assets@[i].project_id == before.assets@[i].project_id
                    &&& self.assets@[i].absolute_path@ == before.assets@[i].absolute_path@
                } by {
                    match before.path_pos(pid, path) {
                        Some(p) => {
                            if i != p {
                                assert(self.assets@[i] == before.assets@[i]);
                            }
                        },
                        None => {
                            assert(self.assets@.drop_last()[i] == self.assets@[i]);
                        },
                    }
                }
                assert forall|m: int| 0 <= m < done + 1 implies exists|i: int|
                    0 <= i < self.assets@.len() && self.assets@[i].project_id == (#[trigger] rows[m]).project_id
                        && self.assets@[i].absolute_path@ == rows[m].absolute_path@ by {
                    if m < done {
                        let i = choose|i: int|
                            0 <= i < before.assets@.len() && before.assets@[i].project_id == rows[m].project_id
                                && before.assets@[i].absolute_path@ == rows[m].absolute_path@;
                        assert(self.assets@[i].project_id == before.assets@[i].project_id);
                    } else {
                        match before.path_pos(pid, path) {
                            Some(p) => {
                                assert(self.assets@[p]@.project_id == pid);
                            },
                            None => {
                                let last = self.assets@.len() - 1;
                                assert(self.assets@[last]@.project_id == pid);
                                assert(self.assets@[last]@.absolute_path == path);
                            },
                        }
                    }
                }
            }
            proof {
                assert forall|m: int| 0 <= m < done + 1 && last_for_path(rows, m, done + 1) implies exists|i: int|
                    0 <= i < self.assets@.len() && same_content(self.assets@[i]@, (#[trigger] rows[m])@) by {
                    if m < done {
                        assert(last_for_path(rows, m, done as int));
                        let i = choose|i: int| 0 <= i < before.assets@.len() && same_content(before.assets@[i]@, rows[m]@);
                        assert(!(rows[done as int].project_id == rows[m].project_id && rows[done as int].absolute_path@ == rows[m].absolute_path@));
                        match before.path_pos(pid, path) {
                            Some(p) => {
                                if i == p {
                                    assert(before.assets@[p].project_id == pid && before.assets@[p].absolute_path@ == path);
                                    assert(before.assets@[i]@.project_id == rows[m]@.project_id);
                                    assert(false);
                                }
                                assert(self.assets@[i] == before.assets@[i]);
                            },
                            None => {
                                assert(self.assets@.drop_last()[i] == self.assets@[i]);
                            },
                        }
                    } else {
                        match before.path_pos(pid, path) {
                            Some(p) => {
                                assert(same_content(self.assets@[p]@, rows[m]@));
                            },
                            None => {
                                let last = self.assets@.len() - 1;
                                assert(same_content(self.assets@[last]@, rows[m]@));
                            },
                        }
                    }
                }
            }
            done = done + 1;
        }
        Ok(n)
    }
}

} // verus!
