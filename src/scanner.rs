//! Scanning decisions: ignore rules, change detection, counters, and the
//! row that the index gets for a new or changed file.
use vstd::prelude::*;
use crate::extract::{classify_extension, extract_references, first_guid, parse_sidecar_guid, refs_from, type_of_extension};
use crate::model::{Asset, AssetType, AssetView, Reference, refs_view};
use crate::store::ExistingFile;
use crate::text::{chars_of, decimal, push_char, push_decimal, push_signed, signed_decimal};

verus! {

/// Whether an ignore pattern applies to a directory entry named `name`: a
/// pattern ending in `/` names directories, any other names any entry.
pub open spec fn pattern_applies(p: Seq<char>, name: Seq<char>, is_dir: bool) -> bool {
    if p.len() > 0 && p.last() == '/' {
        is_dir && p.drop_last() == name
    } else {
        p == name
    }
}

/// Whether any pattern applies to the entry.
pub open spec fn ignored_spec(patterns: Seq<String>, name: Seq<char>, is_dir: bool) -> bool {
    exists|k: int| 0 <= k < patterns.len() && pattern_applies(patterns[k]@, name, is_dir)
}

fn applies(p: &String, name: &Vec<char>, is_dir: bool) -> (r: bool)
    ensures
        r == pattern_applies(p@, name@, is_dir),
{
    let pc = chars_of(p.as_str());
    if pc.len() > 0 && pc[pc.len() - 1] == '/' {
        assert(pc@.last() == '/');
        if !is_dir || pc.len() - 1 != name.len() {
            assert(!is_dir || pc@.drop_last().len() != name@.len());
            return false;
        }
        let mut i: usize = 0;
        while i < name.len()
            invariant
                pc@.len() - 1 == name@.len(),
                pc@.len() > 0,
                pc@ == p@,
                is_dir,
                pc@.last() == '/',
                i <= name@.len(),
                forall|k: int| 0 <= k < i ==> pc@[k] == name@[k],
            decreases name@.len() - i,
        {
            if pc[i] != name[i] {
                assert(pc@.drop_last()[i as int] != name@[i as int]);
                assert(pc@.drop_last() != name@);
                assert(pc@ == p@);
                return false;
            }
            i = i + 1;
        }
        assert(pc@.drop_last() =~= name@);
        true
    } else {
        crate::text::same_chars_vec(&pc, name)
    }
}

/// Whether a directory entry is left out of a scan. A pruned directory hides
/// everything below it, so a path is ignored when any of its segments is.
pub fn entry_ignored(name: &str, is_dir: bool, patterns: &Vec<String>) -> (r: bool)
    ensures
        r == ignored_spec(patterns@, name@, is_dir),
{
    let n = chars_of(name);
    let mut k: usize = 0;
    while k < patterns.len()
        invariant
            n@ == name@,
            k <= patterns@.len(),
            forall|j: int| 0 <= j < k ==> !pattern_applies(patterns@[j]@, name@, is_dir),
        decreases patterns@.len() - k,
    {
        if applies(&patterns[k], &n, is_dir) {
            return true;
        }
        k = k + 1;
    }
    false
}

/// The file is known with the same size and modification time.
pub open spec fn unchanged_spec(existing: Seq<ExistingFile>, path: Seq<char>, size: u64, mtime: i64) -> bool {
    exists|k: int|
        0 <= k < existing.len() && existing[k].absolute_path@ == path && existing[k].size_bytes == size
            && existing[k].modified_time == mtime
}

/// Whether a visited file looks unchanged against the stored baseline.
pub fn is_unchanged(existing: &Vec<ExistingFile>, path: &String, size: u64, mtime: i64) -> (r: bool)
    ensures
        r == unchanged_spec(existing@, path@, size, mtime),
{
    let mut k: usize = 0;
    while k < existing.len()
        invariant
            k <= existing@.len(),
            forall|j: int|
                0 <= j < k ==> !(existing@[j].absolute_path@ == path@ && existing@[j].size_bytes == size
                    && existing@[j].modified_time == mtime),
        decreases existing@.len() - k,
    {
        let e = &existing[k];
        if e.size_bytes == size && e.modified_time == mtime && crate::text::same_text(&e.absolute_path, path) {
            return true;
        }
        k = k + 1;
    }
    false
}

/// Counters of one scan.
#[derive(Debug, Clone, Copy, PartialEq, Eq, Structural)]
pub struct ScanStats {
    pub total_files: usize,
    pub unchanged_skipped: usize,
    pub new_or_changed: usize,
}

impl ScanStats {
    pub open spec fn wf(&self) -> bool {
        self.total_files == self.unchanged_skipped + self.new_or_changed
    }

    pub fn new() -> (r: ScanStats)
        ensures
            r.wf(),
            r.total_files == 0,
            r.unchanged_skipped == 0,
            r.new_or_changed == 0,
    {
        ScanStats { total_files: 0, unchanged_skipped: 0, new_or_changed: 0 }
    }

    /// Counts one visited file.
    pub fn record(&mut self, unchanged: bool)
        requires
            old(self).wf(),
            old(self).total_files < usize::MAX,
        ensures
            final(self).wf(),
            final(self).total_files == old(self).total_files + 1,
            final(self).unchanged_skipped == old(self).unchanged_skipped + if unchanged { 1usize } else { 0usize },
            final(self).new_or_changed == old(self).new_or_changed + if unchanged { 0usize } else { 1usize },
    {
        self.total_files = self.total_files + 1;
        if unchanged {
            self.unchanged_skipped = self.unchanged_skipped + 1;
        } else {
            self.new_or_changed = self.new_or_changed + 1;
        }
    }
}

/// The change-detection fingerprint: size and modification time, in decimal.
pub open spec fn fingerprint_spec(size: u64, mtime: i64) -> Seq<char> {
    decimal(size as nat) + seq!['-'] + signed_decimal(mtime as int)
}

pub fn content_hash(size: u64, mtime: i64) -> (r: String)
    ensures
        r@ == fingerprint_spec(size, mtime),
{
    let mut s = String::new();
    push_decimal(&mut s, size);
    push_char(&mut s, '-');
    push_signed(&mut s, mtime);
    assert(s@ =~= fingerprint_spec(size, mtime));
    s
}

/// Types whose bodies are text that may reference other assets.
pub open spec fn references_read(t: AssetType) -> bool {
    t == AssetType::Material || t == AssetType::Prefab || t == AssetType::Scene
        || t == AssetType::Animation || t == AssetType::Config
}

/// A file as the scanner found it, with what could be read beside it.
#[derive(Debug)]
pub struct FileFacts {
    pub absolute_path: String,
    pub relative_path: String,
    pub file_name: String,
    pub extension: String,
    pub size_bytes: u64,
    pub modified_time: i64,
    /// Content of the sibling `.meta` file, when there is one.
    pub sidecar: Option<Vec<u8>>,
    /// Content of the file itself, when it was read.
    pub body: Option<Vec<u8>>,
}

/// The row that a new or changed file gets: its type from the extension, its
/// guid from the sidecar, and the references of its body when its type is a
/// text type. The id is assigned by the index.
pub open spec fn row_spec(pid: u64, f: FileFacts) -> AssetView {
    let t = type_of_extension(f.extension@);
    AssetView {
        id: 0,
        project_id: pid,
        absolute_path: f.absolute_path@,
        relative_path: f.relative_path@,
        file_name: f.file_name@,
        extension: f.extension@,
        asset_type: t,
        size_bytes: f.size_bytes,
        modified_time: f.modified_time,
        content_hash: fingerprint_spec(f.size_bytes, f.modified_time),
        guid: match f.sidecar {
            Some(m) => first_guid(m@, 0),
            None => None,
        },
        thumbnail_path: None,
        references: match f.body {
            Some(b) => if references_read(t) {
                refs_from(b@, 0, None)
            } else {
                Seq::empty()
            },
            None => Seq::empty(),
        },
    }
}

/// Builds the index row of a file of project `pid`.
pub fn build_asset_row(pid: u64, f: FileFacts) -> (r: Asset)
    ensures
        r@ == row_spec(pid, f),
{
    let ghost fv = f;
    let t = classify_extension(f.extension.as_str());
    let guid = match &f.sidecar {
        Some(m) => parse_sidecar_guid(m.as_slice()),
        None => None,
    };
    let references: Vec<Reference> = match &f.body {
        Some(b) => if t == AssetType::Material || t == AssetType::Prefab || t == AssetType::Scene
            || t == AssetType::Animation || t == AssetType::Config {
            extract_references(b.as_slice())
        } else {
            Vec::new()
        },
        None => Vec::new(),
    };
    let hash = content_hash(f.size_bytes, f.modified_time);
    let r = Asset {
        id: 0,
        project_id: pid,
        absolute_path: f.absolute_path,
        relative_path: f.relative_path,
        file_name: f.file_name,
        extension: f.extension,
        asset_type: t,
        size_bytes: f.size_bytes,
        modified_time: f.modified_time,
        content_hash: hash,
        guid,
        thumbnail_path: None,
        references,
    };
    assert(refs_view(r.references@) =~= row_spec(pid, fv).references);
    r
}

} // verus!
