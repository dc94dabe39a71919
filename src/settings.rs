//! Process-wide settings, and the records that answer queries.
use vstd::prelude::*;
use crate::model::{Asset, AssetType, AssetView};
use crate::store::Store;
use crate::text::{chars_of, opt_view, string_of};

verus! {

/// Settings read at the start of a scan.
#[derive(Debug)]
pub struct LibrarySettings {
    pub project_root: Option<String>,
    pub output_folder: Option<String>,
    pub ignore_patterns: Vec<String>,
    pub thumbnail_size: u32,
    pub scan_on_focus: bool,
}

/// The ignore patterns of fresh settings.
pub open spec fn default_patterns() -> Seq<Seq<char>> {
    seq![
        "Library/"@, "Temp/"@, "obj/"@, "Logs/"@, "UserSettings/"@, ".git/"@, ".vs/"@,
        "Builds/"@, "Build/"@, "node_modules/"@, "__pycache__/"@, ".svn/"@, ".hg/"@,
        "packages/"@, "ProjectSettings/"@, ".idea/"@, "bin/"@,
    ]
}

/// Edge length of thumbnails in fresh settings.
pub const DEFAULT_THUMBNAIL_SIZE: u32 = 128;

impl Default for LibrarySettings {
    fn default() -> (r: LibrarySettings)
        ensures
            r.project_root is None,
            r.output_folder is None,
            r.ignore_patterns@.map_values(|p: String| p@) == default_patterns(),
            r.thumbnail_size == DEFAULT_THUMBNAIL_SIZE,
            r.scan_on_focus,
    {
        let names: Vec<&str> = vec![
            "Library/", "Temp/", "obj/", "Logs/", "UserSettings/", ".git/", ".vs/",
            "Builds/", "Build/", "node_modules/", "__pycache__/", ".svn/", ".hg/",
            "packages/", "ProjectSettings/", ".idea/", "bin/",
        ];
        let mut patterns: Vec<String> = Vec::new();
        let mut i: usize = 0;
        while i < names.len()
            invariant
                i <= names@.len(),
                patterns@.len() == i,
                forall|k: int| 0 <= k < i ==> (#[trigger] patterns@[k])@ == names@[k]@,
            decreases names@.len() - i,
        {
            patterns.push(String::from_str(names[i]));
            i = i + 1;
        }
        assert(patterns@.map_values(|p: String| p@) =~= default_patterns());
        LibrarySettings {
            project_root: None,
            output_folder: None,
            ignore_patterns: patterns,
            thumbnail_size: DEFAULT_THUMBNAIL_SIZE,
            scan_on_focus: true,
        }
    }
}

/// The settings a client sees.
#[derive(Debug)]
pub struct LibrarySettingsResponse {
    pub project_root: Option<String>,
    pub output_folder: Option<String>,
}

impl LibrarySettings {
    pub fn response(&self) -> (r: LibrarySettingsResponse)
        ensures
            opt_view(r.project_root) == opt_view(self.project_root),
            opt_view(r.output_folder) == opt_view(self.output_folder),
    {
        LibrarySettingsResponse { project_root: self.project_root.clone(), output_folder: self.output_folder.clone() }
    }
}

/// One page of a listing, with the number of all matches.
#[derive(Debug)]
pub struct AssetsResponse {
    pub assets: Vec<Asset>,
    pub total: usize,
}

/// What a model-thumbnail renderer needs of a model asset.
#[derive(Debug)]
pub struct ModelAssetInfo {
    pub id: u64,
    pub absolute_path: String,
    pub extension: String,
    pub modified_time: i64,
}

/// The model assets of project `pid`.
pub open spec fn models_of(pid: u64) -> spec_fn(AssetView) -> bool {
    |a: AssetView| a.project_id == pid && a.asset_type == AssetType::Model
}

/// The model assets of project `pid`, in storage order.
pub fn get_model_assets(store: &Store, pid: u64) -> (r: Vec<ModelAssetInfo>)
    ensures
        r@.len() == store.assets_m().filter(models_of(pid)).len(),
        forall|k: int| 0 <= k < r@.len() ==> {
            let a = #[trigger] store.assets_m().filter(models_of(pid))[k];
            &&& r@[k].id == a.id
            &&& r@[k].absolute_path@ == a.absolute_path
            &&& r@[k].extension@ == a.extension
            &&& r@[k].modified_time == a.modified_time
        },
{
    let mut out: Vec<ModelAssetInfo> = Vec::new();
    let mut i: usize = 0;
    while i < store.assets.len()
        invariant
            i <= store.assets@.len(),
            out@.len() == store.assets_m().subrange(0, i as int).filter(models_of(pid)).len(),
            forall|k: int| 0 <= k < out@.len() ==> {
                let a = #[trigger] store.assets_m().subrange(0, i as int).filter(models_of(pid))[k];
                &&& out@[k].id == a.id
                &&& out@[k].absolute_path@ == a.absolute_path
                &&& out@[k].extension@ == a.extension
                &&& out@[k].modified_time == a.modified_time
            },
        decreases store.assets@.len() - i,
    {
        proof {
            crate::model::lemma_filter_step(store.assets_m(), i as int, models_of(pid));
        }
        let a = &store.assets[i];
        if a.project_id == pid && a.asset_type == AssetType::Model {
            out.push(ModelAssetInfo {
                id: a.id,
                absolute_path: a.absolute_path.clone(),
                extension: a.extension.clone(),
                modified_time: a.modified_time,
            });
        }
        i = i + 1;
    }
    assert(store.assets_m().subrange(0, store.assets@.len() as int) =~= store.assets_m());
    out
}

/// The characters after the last slash.
pub open spec fn tail_segment(p: Seq<char>) -> Seq<char>
    decreases p.len(),
{
    if p.len() == 0 || p.last() == '/' {
        Seq::empty()
    } else {
        tail_segment(p.drop_last()).push(p.last())
    }
}

/// The name a project gets from its root path: the last segment, or
/// `Unknown Folder` when the path has none.
pub open spec fn project_name_spec(p: Seq<char>) -> Seq<char> {
    let s = tail_segment(trim_slashes(p));
    if s.len() == 0 { "Unknown Folder"@ } else { s }
}

/// The path without trailing slashes.
pub open spec fn trim_slashes(p: Seq<char>) -> Seq<char>
    decreases p.len(),
{
    if p.len() > 0 && p.last() == '/' { trim_slashes(p.drop_last()) } else { p }
}

/// The name a project gets from its root path.
pub fn project_name(path: &str) -> (r: String)
    ensures
        r@ == project_name_spec(path@),
{
    let c = chars_of(path);
    let mut e: usize = c.len();
    assert(c@.subrange(0, c@.len() as int) =~= c@);
    while e > 0 && c[e - 1] == '/'
        invariant
            e <= c@.len(),
            trim_slashes(c@.subrange(0, e as int)) == trim_slashes(c@),
        decreases e,
    {
        assert(c@.subrange(0, e as int).drop_last() =~= c@.subrange(0, e as int - 1));
        e = e - 1;
    }
    assert(c@.subrange(0, c@.len() as int) =~= c@);
    let ghost t = c@.subrange(0, e as int);
    assert(trim_slashes(t) == t);
    let mut s: usize = e;
    while s > 0 && c[s - 1] != '/'
        invariant
            s <= e <= c@.len(),
            t == c@.subrange(0, e as int),
            tail_segment(t) == tail_segment(c@.subrange(0, s as int)) + c@.subrange(s as int, e as int),
        decreases s,
    {
        assert(c@.subrange(0, s as int).drop_last() =~= c@.subrange(0, s as int - 1));
        assert(c@.subrange(s as int - 1, e as int) =~= seq![c@[s as int - 1]] + c@.subrange(s as int, e as int));
        assert(tail_segment(c@.subrange(0, s as int)) == tail_segment(c@.subrange(0, s as int - 1)).push(c@[s as int - 1]));
        assert(tail_segment(c@.subrange(0, s as int - 1)).push(c@[s as int - 1]) + c@.subrange(s as int, e as int)
            =~= tail_segment(c@.subrange(0, s as int - 1)) + c@.subrange(s as int - 1, e as int));
        s = s - 1;
    }
    assert(tail_segment(c@.subrange(0, s as int)) =~= Seq::<char>::empty());
    assert(tail_segment(t) =~= c@.subrange(s as int, e as int));
    if s == e {
        return String::from_str("Unknown Folder");
    }
    let mut v: Vec<char> = Vec::new();
    let mut k: usize = s;
    while k < e
        invariant
            s <= k <= e <= c@.len(),
            v@ == c@.subrange(s as int, k as int),
        decreases e - k,
    {
        v.push(c[k]);
        k = k + 1;
        assert(v@ =~= c@.subrange(s as int, k as int));
    }
    string_of(&v)
}

} // verus!
