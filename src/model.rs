//! The records of the index: projects, assets, dependency edges, and their models.
use vstd::prelude::*;
use crate::text::{opt_view, same_opt_text};

verus! {

/// The closed set of asset kinds.
#[derive(Clone, Copy, Debug, PartialEq, Eq, Structural)]
pub enum AssetType {
    Texture,
    Material,
    Model,
    Script,
    Shader,
    Prefab,
    Scene,
    Audio,
    Animation,
    Font,
    Config,
    Other,
}

/// How a reference names its target.
#[derive(Clone, Copy, Debug, PartialEq, Eq, Structural)]
pub enum DepKind {
    Guid,
    Path,
}

/// An outbound reference read from an asset's body.
#[derive(Debug)]
pub struct Reference {
    pub kind: DepKind,
    pub target: String,
    pub slot_name: Option<String>,
}

pub ghost struct ReferenceView {
    pub kind: DepKind,
    pub target: Seq<char>,
    pub slot_name: Option<Seq<char>>,
}

impl View for Reference {
    type V = ReferenceView;

    open spec fn view(&self) -> ReferenceView {
        ReferenceView { kind: self.kind, target: self.target@, slot_name: opt_view(self.slot_name) }
    }
}

/// The models of a list of references.
pub open spec fn refs_view(v: Seq<Reference>) -> Seq<ReferenceView> {
    v.map_values(|r: Reference| r@)
}

impl Reference {
    pub fn copy(&self) -> (r: Reference)
        ensures
            r@ == self@,
    {
        Reference { kind: self.kind, target: self.target.clone(), slot_name: self.slot_name.clone() }
    }
}

/// A copy of a list of references.
pub fn copy_refs(v: &Vec<Reference>) -> (r: Vec<Reference>)
    ensures
        refs_view(r@) == refs_view(v@),
{
    let mut out: Vec<Reference> = Vec::new();
    let mut i: usize = 0;
    while i < v.len()
        invariant
            i <= v@.len(),
            out@.len() == i,
            forall|j: int| 0 <= j < i ==> (#[trigger] out@[j])@ == v@[j]@,
        decreases v@.len() - i,
    {
        out.push(v[i].copy());
        i = i + 1;
    }
    assert(refs_view(out@) =~= refs_view(v@));
    out
}

/// A row of the index: one file of a project.
#[derive(Debug)]
pub struct Asset {
    pub id: u64,
    pub project_id: u64,
    pub absolute_path: String,
    pub relative_path: String,
    pub file_name: String,
    pub extension: String,
    pub asset_type: AssetType,
    pub size_bytes: u64,
    pub modified_time: i64,
    pub content_hash: String,
    pub guid: Option<String>,
    pub thumbnail_path: Option<String>,
    pub references: Vec<Reference>,
}

pub ghost struct AssetView {
    pub id: u64,
    pub project_id: u64,
    pub absolute_path: Seq<char>,
    pub relative_path: Seq<char>,
    pub file_name: Seq<char>,
    pub extension: Seq<char>,
    pub asset_type: AssetType,
    pub size_bytes: u64,
    pub modified_time: i64,
    pub content_hash: Seq<char>,
    pub guid: Option<Seq<char>>,
    pub thumbnail_path: Option<Seq<char>>,
    pub references: Seq<ReferenceView>,
}

impl View for Asset {
    type V = AssetView;

    open spec fn view(&self) -> AssetView {
        AssetView {
            id: self.id,
            project_id: self.project_id,
            absolute_path: self.absolute_path@,
            relative_path: self.relative_path@,
            file_name: self.file_name@,
            extension: self.extension@,
            asset_type: self.asset_type,
            size_bytes: self.size_bytes,
            modified_time: self.modified_time,
            content_hash: self.content_hash@,
            guid: opt_view(self.guid),
            thumbnail_path: opt_view(self.thumbnail_path),
            references: refs_view(self.references@),
        }
    }
}

/// The models of a list of assets.
pub open spec fn assets_view(v: Seq<Asset>) -> Seq<AssetView> {
    v.map_values(|a: Asset| a@)
}

impl Asset {
    pub fn copy(&self) -> (r: Asset)
        ensures
            r@ == self@,
    {
        Asset {
            id: self.id,
            project_id: self.project_id,
            absolute_path: self.absolute_path.clone(),
            relative_path: self.relative_path.clone(),
            file_name: self.file_name.clone(),
            extension: self.extension.clone(),
            asset_type: self.asset_type,
            size_bytes: self.size_bytes,
            modified_time: self.modified_time,
            content_hash: self.content_hash.clone(),
            guid: self.guid.clone(),
            thumbnail_path: self.thumbnail_path.clone(),
            references: copy_refs(&self.references),
        }
    }
}

/// A project: the directory tree that is indexed as one unit.
#[derive(Debug)]
pub struct Project {
    pub id: u64,
    pub root_path: String,
    pub name: String,
    pub last_scan_time: Option<i64>,
    pub file_count: u64,
}

pub ghost struct ProjectView {
    pub id: u64,
    pub root_path: Seq<char>,
    pub name: Seq<char>,
    pub last_scan_time: Option<i64>,
    pub file_count: u64,
}

impl View for Project {
    type V = ProjectView;

    open spec fn view(&self) -> ProjectView {
        ProjectView {
            id: self.id,
            root_path: self.root_path@,
            name: self.name@,
            last_scan_time: self.last_scan_time,
            file_count: self.file_count,
        }
    }
}

impl Project {
    pub fn copy(&self) -> (r: Project)
        ensures
            r@ == self@,
    {
        Project {
            id: self.id,
            root_path: self.root_path.clone(),
            name: self.name.clone(),
            last_scan_time: self.last_scan_time,
            file_count: self.file_count,
        }
    }
}

/// A directed edge: the source asset references the target asset.
#[derive(Debug)]
pub struct Dependency {
    pub source_asset_id: u64,
    pub target_asset_id: u64,
    pub kind: DepKind,
    pub slot_name: Option<String>,
}

pub ghost struct DependencyView {
    pub source_asset_id: u64,
    pub target_asset_id: u64,
    pub kind: DepKind,
    pub slot_name: Option<Seq<char>>,
}

impl View for Dependency {
    type V = DependencyView;

    open spec fn view(&self) -> DependencyView {
        DependencyView {
            source_asset_id: self.source_asset_id,
            target_asset_id: self.target_asset_id,
            kind: self.kind,
            slot_name: opt_view(self.slot_name),
        }
    }
}

/// The models of a list of edges.
pub open spec fn deps_view(v: Seq<Dependency>) -> Seq<DependencyView> {
    v.map_values(|d: Dependency| d@)
}

impl Dependency {
    pub fn copy(&self) -> (r: Dependency)
        ensures
            r@ == self@,
    {
        Dependency {
            source_asset_id: self.source_asset_id,
            target_asset_id: self.target_asset_id,
            kind: self.kind,
            slot_name: self.slot_name.clone(),
        }
    }

    /// Whether two edges have the same endpoints, kind and slot.
    pub fn same_edge(&self, o: &Dependency) -> (r: bool)
        ensures
            r == (self@ == o@),
    {
        self.source_asset_id == o.source_asset_id && self.target_asset_id == o.target_asset_id
            && self.kind == o.kind && same_opt_text(&self.slot_name, &o.slot_name)
    }
}

/// Number of assets of one type in a project.
#[derive(Clone, Copy, Debug, PartialEq, Eq, Structural)]
pub struct TypeCount {
    pub asset_type: AssetType,
    pub count: u64,
}

} // verus!

verus! {

/// Errors of the library's operations.
#[derive(Debug)]
pub enum LibraryError {
    /// The path is not a directory, or the project id is unknown.
    InvalidProject,
    /// No asset has the queried id.
    AssetNotFound(u64),
    /// The index refused a write.
    StoreError,
    /// A filesystem read or write failed.
    IoError,
    /// A structured file failed to parse.
    ParseError,
    /// The operation observed the cancel flag.
    Cancelled,
    /// Any other failure of orchestration.
    Custom(String),
}

} // verus!

verus! {

/// One more element of `s` through a filter.
pub proof fn lemma_filter_step<A>(s: Seq<A>, i: int, p: spec_fn(A) -> bool)
    requires
        0 <= i < s.len(),
    ensures
        s.subrange(0, i + 1).filter(p) == if p(s[i]) {
            s.subrange(0, i).filter(p).push(s[i])
        } else {
            s.subrange(0, i).filter(p)
        },
{
    reveal(Seq::filter);
    assert(s.subrange(0, i + 1).drop_last() =~= s.subrange(0, i));
}

/// At most the first `n` elements of `s`.
pub open spec fn first_n<A>(s: Seq<A>, n: nat) -> Seq<A> {
    if s.len() <= n {
        s
    } else {
        s.subrange(0, n as int)
    }
}

} // verus!
