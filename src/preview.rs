//! Thumbnail decisions: size and dimension guards, cache names, sentinels,
//! material fallbacks, and the batch over a project.
use vstd::prelude::*;
use base64::Engine;
use crate::extract::{MaterialInfo, textures_view};
use crate::model::{Asset, AssetType, AssetView, LibraryError, assets_view, first_n};
use crate::extract::MaterialTextureView;
use crate::resolver::guid_owner;
use crate::store::{Store, needs_thumbnail};
use crate::text::{chars_of, contains_exec, contains_text, fold_all, fold_text, hexadecimal, opt_view, push_char, push_hex, push_signed, push_str, signed_decimal};

verus! {

/// Largest texture source, in bytes, that is decoded.
pub const MAX_TEXTURE_FILE_BYTES: u64 = 52428800;

/// Largest width or height of a decoded texture.
pub const MAX_DIMENSION: u32 = 2048;

/// Largest pixel count of a decoded texture.
pub const MAX_PIXELS: u64 = 4194304;

/// Seconds a decode may take before the texture counts as unsupported.
pub const DECODE_TIMEOUT_SECS: u64 = 3;

/// Whether a texture source of `size` bytes is small enough to decode.
pub fn file_size_accepted(size: u64) -> (r: bool)
    ensures
        r == (size <= MAX_TEXTURE_FILE_BYTES),
{
    size <= MAX_TEXTURE_FILE_BYTES
}

/// What a decoded image's dimensions allow.
#[derive(Debug, Clone, Copy, PartialEq, Eq, Structural)]
pub enum DimensionVerdict {
    Accept,
    TooLarge,
    Unsupported,
}

/// The verdict on decoded dimensions: an empty image is unsupported; one wider
/// or taller than `MAX_DIMENSION`, or with more than `MAX_PIXELS` pixels, is
/// too large.
pub open spec fn dimension_verdict_spec(w: u32, h: u32) -> DimensionVerdict {
    if w == 0 || h == 0 {
        DimensionVerdict::Unsupported
    } else if w > MAX_DIMENSION || h > MAX_DIMENSION || (w as int) * (h as int) > MAX_PIXELS {
        DimensionVerdict::TooLarge
    } else {
        DimensionVerdict::Accept
    }
}

pub fn dimension_verdict(w: u32, h: u32) -> (r: DimensionVerdict)
    ensures
        r == dimension_verdict_spec(w, h),
{
    if w == 0 || h == 0 {
        return DimensionVerdict::Unsupported;
    }
    if w > MAX_DIMENSION || h > MAX_DIMENSION {
        return DimensionVerdict::TooLarge;
    }
    assert((w as int) * (h as int) <= 2048 * 2048) by (nonlinear_arith)
        requires
            w <= 2048,
            h <= 2048,
    ;
    let pixels = (w as u64) * (h as u64);
    if pixels > MAX_PIXELS {
        DimensionVerdict::TooLarge
    } else {
        DimensionVerdict::Accept
    }
}

/// The sentinel for sources that are too large.
pub open spec fn too_large_text() -> Seq<char> {
    "TOO_LARGE"@
}

/// The sentinel for sources that cannot be decoded.
pub open spec fn unsupported_text() -> Seq<char> {
    "UNSUPPORTED"@
}

/// Extensions of texture sources that get thumbnails, lower case.
pub open spec fn texture_sources() -> Seq<Seq<char>> {
    seq!["png"@, "jpg"@, "jpeg"@, "tga"@, "bmp"@, "gif"@, "psd"@]
}

/// Whether the extension names a texture source, compared without ASCII case.
pub fn is_texture_source(ext: &str) -> (r: bool)
    ensures
        r == texture_sources().contains(fold_text(ext@)),
{
    let e = fold_all(&chars_of(ext));
    let names: Vec<&str> = vec!["png", "jpg", "jpeg", "tga", "bmp", "gif", "psd"];
    let ghost nv = names@.map_values(|s: &str| s@);
    assert(nv =~= texture_sources());
    let mut i: usize = 0;
    while i < names.len()
        invariant
            nv == names@.map_values(|s: &str| s@),
            nv == texture_sources(),
            e@ == fold_text(ext@),
            i <= names@.len(),
            forall|k: int| 0 <= k < i ==> nv[k] != e@,
        decreases names@.len() - i,
    {
        let n = chars_of(names[i]);
        if crate::text::same_chars_vec(&n, &e) {
            assert(nv[i as int] == e@);
            return true;
        }
        i = i + 1;
    }
    false
}

/// The hash of a path's text that names its cached thumbnail.
pub uninterp spec fn path_hash(s: Seq<char>) -> u64;

/// Relies on std's `DefaultHasher`, whose keys are fixed: the hash of a
/// string depends on the string alone.
#[verifier::external_body]
pub(crate) fn md5_hash(input: &str) -> (r: u64)
    ensures
        r == path_hash(input@),
{
    let mut hasher = std::collections::hash_map::DefaultHasher::new();
    std::hash::Hash::hash(input, &mut hasher);
    std::hash::Hasher::finish(&hasher)
}

/// The file name of an asset's cached thumbnail: the path hash in hex, the
/// modification time, and `.png`; materials get a `mat_` prefix.
pub open spec fn thumbnail_name(a: AssetView, material: bool) -> Seq<char> {
    (if material { seq!['m', 'a', 't', '_'] } else { Seq::empty() }) + hexadecimal(
        path_hash(a.absolute_path) as nat,
    ) + seq!['_'] + signed_decimal(a.modified_time as int) + seq!['.', 'p', 'n', 'g']
}

/// Makes thumbnails into a cache directory, at a given size.
#[derive(Debug)]
pub struct PreviewGenerator {
    pub thumbnail_dir: String,
    pub thumbnail_size: u32,
}

/// What the caller observed of an asset's source before and while making its
/// thumbnail.
#[derive(Debug)]
pub struct SourceFacts {
    /// Size of the source file, when it could be read.
    pub file_size: Option<u64>,
    /// The cache file for this asset already exists.
    pub cached: bool,
    /// Dimensions of the decoded image; `None` when the decode failed or timed out.
    pub decoded: Option<(u32, u32)>,
    /// The thumbnail (or the material placeholder) was written to the cache.
    pub saved: bool,
    /// The parsed material, for materials.
    pub material: Option<MaterialInfo>,
    /// The main texture's thumbnail was made and copied into the cache.
    pub texture_copied: bool,
}

impl PreviewGenerator {
    pub fn new(thumbnail_dir: String, thumbnail_size: u32) -> (r: PreviewGenerator)
        ensures
            r.thumbnail_dir@ == thumbnail_dir@,
            r.thumbnail_size == thumbnail_size,
    {
        PreviewGenerator { thumbnail_dir, thumbnail_size }
    }

    /// The path of the cached thumbnail of `a`.
    pub open spec fn cache_path(&self, a: AssetView, material: bool) -> Seq<char> {
        self.thumbnail_dir@ + seq!['/'] + thumbnail_name(a, material)
    }

    /// What `generate_thumbnail` records and returns for asset `a`.
    pub open spec fn outcome(&self, a: AssetView, f: SourceFacts) -> Option<Seq<char>> {
        match a.asset_type {
            AssetType::Texture => if f.file_size matches Some(s) && s > MAX_TEXTURE_FILE_BYTES {
                Some(too_large_text())
            } else if !texture_sources().contains(fold_text(a.extension)) {
                None
            } else if f.cached {
                Some(self.cache_path(a, false))
            } else {
                match f.decoded {
                    None => Some(unsupported_text()),
                    Some((w, h)) => match dimension_verdict_spec(w, h) {
                        DimensionVerdict::Unsupported => Some(unsupported_text()),
                        DimensionVerdict::TooLarge => Some(too_large_text()),
                        DimensionVerdict::Accept => if f.saved {
                            Some(self.cache_path(a, false))
                        } else {
                            Some(unsupported_text())
                        },
                    },
                }
            },
            AssetType::Material => match f.material {
                None => None,
                Some(_) => if f.cached || f.texture_copied || f.saved {
                    Some(self.cache_path(a, true))
                } else {
                    None
                },
            },
            _ => None,
        }
    }

    /// Where the thumbnail of `a` is cached.
    pub fn cache_file(&self, a: &Asset, material: bool) -> (r: String)
        ensures
            r@ == self.cache_path(a@, material),
    {
        let mut s = self.thumbnail_dir.clone();
        push_char(&mut s, '/');
        if material {
            push_str(&mut s, "mat_");
            proof {
                reveal_strlit("mat_");
            }
        }
        let ghost before = s@;
        let h = md5_hash(a.absolute_path.as_str());
        push_hex(&mut s, h);
        push_char(&mut s, '_');
        push_signed(&mut s, a.modified_time);
        push_str(&mut s, ".png");
        proof {
            reveal_strlit(".png");
        }
        assert(s@ =~= self.cache_path(a@, material));
        s
    }

    /// Makes, or takes from the cache, the thumbnail of `asset`, and records
    /// the outcome (a cache path or a sentinel) on the asset in `store`.
    /// Returns the recorded value; `None` when the asset gets no thumbnail.
    pub fn generate_thumbnail(&self, store: &mut Store, asset: &Asset, facts: &SourceFacts) -> (r: Result<Option<String>, LibraryError>)
        requires
            old(store).wf(),
        ensures
            final(store).wf(),
            final(store).projects == old(store).projects,
            final(store).deps == old(store).deps,
            match self.outcome(asset@, *facts) {
                None => r == Ok::<Option<String>, LibraryError>(None) && *final(store) == *old(store),
                Some(v) => if old(store).has_asset(asset.id) {
                    &&& r matches Ok(Some(s)) && s@ == v
                    &&& final(store).assets@.len() == old(store).assets@.len()
                    &&& forall|j: int| 0 <= j < old(store).assets@.len() ==> final(store).assets@[j]@ == if old(store).assets@[j].id == asset.id {
                        AssetView { thumbnail_path: Some(v), ..old(store).assets@[j]@ }
                    } else {
                        old(store).assets@[j]@
                    }
                } else {
                    r == Err::<Option<String>, LibraryError>(LibraryError::AssetNotFound(asset.id)) && *final(store) == *old(store)
                },
            },
    {
        let value: Option<String> = match asset.asset_type {
            AssetType::Texture => self.texture_value(asset, facts),
            AssetType::Material => self.material_value(asset, facts),
            _ => None,
        };
        match value {
            None => Ok(None),
            Some(v) => {
                match store.update_asset_thumbnail(asset.id, &v) {
                    Ok(()) => Ok(Some(v)),
                    Err(e) => Err(e),
                }
            },
        }
    }

    fn texture_value(&self, asset: &Asset, facts: &SourceFacts) -> (r: Option<String>)
        requires
            asset.asset_type == AssetType::Texture,
        ensures
            opt_view(r) == self.outcome(asset@, *facts),
    {
        match facts.file_size {
            Some(s) => {
                if !file_size_accepted(s) {
                    return Some(String::from_str("TOO_LARGE"));
                }
            },
            None => {},
        }
        if !is_texture_source(asset.extension.as_str()) {
            return None;
        }
        if facts.cached {
            return Some(self.cache_file(asset, false));
        }
        match facts.decoded {
            None => Some(String::from_str("UNSUPPORTED")),
            Some((w, h)) => match dimension_verdict(w, h) {
                DimensionVerdict::Unsupported => Some(String::from_str("UNSUPPORTED")),
                DimensionVerdict::TooLarge => Some(String::from_str("TOO_LARGE")),
                DimensionVerdict::Accept => if facts.saved {
                    Some(self.cache_file(asset, false))
                } else {
                    Some(String::from_str("UNSUPPORTED"))
                },
            },
        }
    }

    fn material_value(&self, asset: &Asset, facts: &SourceFacts) -> (r: Option<String>)
        requires
            asset.asset_type == AssetType::Material,
        ensures
            opt_view(r) == self.outcome(asset@, *facts),
    {
        match &facts.material {
            None => None,
            Some(_) => {
                if facts.cached || facts.texture_copied || facts.saved {
                    Some(self.cache_file(asset, true))
                } else {
                    None
                }
            },
        }
    }
}


/// Number of `k` below `n` whose asset gets a thumbnail.
pub open spec fn made_count(g: PreviewGenerator, list: Seq<AssetView>, facts: Seq<SourceFacts>, n: int) -> nat
    decreases n,
{
    if n <= 0 {
        0
    } else {
        made_count(g, list, facts, n - 1) + if g.outcome(list[n - 1], facts[n - 1]) is Some { 1nat } else { 0nat }
    }
}

impl PreviewGenerator {
    /// Makes thumbnails for up to `limit` assets of project `pid` that need
    /// one, in the order `get_assets_needing_thumbnails` gives them, the
    /// `k`-th with `facts[k]`; returns how many got a thumbnail or a sentinel.
    pub fn generate_thumbnails_for_project(&self, store: &mut Store, pid: u64, limit: usize, facts: &Vec<SourceFacts>) -> (r: usize)
        requires
            old(store).wf(),
        ensures
            final(store).wf(),
            final(store).projects == old(store).projects,
            final(store).deps == old(store).deps,
            ({
                let list = first_n(old(store).assets_m().filter(needs_thumbnail(pid)), limit as nat);
                let n = if list.len() < facts@.len() { list.len() as int } else { facts@.len() as int };
                &&& r == made_count(*self, list, facts@, n)
                &&& forall|m: int| 0 <= m < n && self.outcome(list[m], facts@[m]) is Some ==> exists|j: int|
                    0 <= j < final(store).assets@.len() && final(store).assets@[j].id == (#[trigger] list[m]).id
                        && final(store).assets@[j]@.thumbnail_path == self.outcome(list[m], facts@[m])
            }),
    {
        let list = store.get_assets_needing_thumbnails(pid, limit);
        let ghost lv = assets_view(list@);
        proof {
            let f = store.assets_m().filter(needs_thumbnail(pid));
            assert forall|a: int, b: int| 0 <= a < store.assets_m().len() && 0 <= b < store.assets_m().len() && a != b
                implies store.assets_m()[a].id != store.assets_m()[b].id by {
                assert(store.assets@[a].id != store.assets@[b].id);
            }
            lemma_filter_unique_ids(store.assets_m(), needs_thumbnail(pid));
            assert(lv == first_n(f, limit as nat));
            assert forall|a: int, b: int| 0 <= a < lv.len() && 0 <= b < lv.len() && a != b implies lv[a].id != lv[b].id by {
                if f.len() > limit {
                    assert(lv =~= f.subrange(0, limit as int));
                    assert(lv[a] == f[a] && lv[b] == f[b]);
                }
            }
        }
        proof {
            assert forall|m: int| 0 <= m < list@.len() implies store.has_asset(#[trigger] list@[m].id) by {
                let f = store.assets_m().filter(needs_thumbnail(pid));
                assert(lv[m] == list@[m]@);
                assert(lv.len() == list@.len());
                assert(lv == first_n(f, limit as nat));
                if f.len() > limit {
                    assert(lv =~= f.subrange(0, limit as int));
                    assert(lv[m] == f[m]);
                } else {
                    assert(lv == f);
                }
                assert(m < f.len());
                assert(f[m] == lv[m]);
                assert(f.contains(lv[m]));
                store.assets_m().lemma_filter_contains_rev(needs_thumbnail(pid), lv[m]);
                let j = choose|j: int| 0 <= j < store.assets_m().len() && store.assets_m()[j] == lv[m];
                assert(store.assets@[j].id == list@[m].id);
            }
        }
        let n = if list.len() < facts.len() { list.len() } else { facts.len() };
        let mut made: usize = 0;
        let mut k: usize = 0;
        while k < n
            invariant
                store.wf(),
                store.projects == old(store).projects,
                store.deps == old(store).deps,
                lv == assets_view(list@),
                n <= list@.len(),
                n <= facts@.len(),
                k <= n,
                made <= k,
                forall|m: int| 0 <= m < list@.len() ==> store.has_asset(#[trigger] list@[m].id),
                made == made_count(*self, lv, facts@, k as int),
                forall|a: int, b: int| 0 <= a < lv.len() && 0 <= b < lv.len() && a != b ==> lv[a].id != lv[b].id,
                forall|m: int| 0 <= m < k && self.outcome(lv[m], facts@[m]) is Some ==> exists|j: int|
                    0 <= j < store.assets@.len() && store.assets@[j].id == (#[trigger] lv[m]).id
                        && store.assets@[j]@.thumbnail_path == self.outcome(lv[m], facts@[m]),
            decreases n - k,
        {
            let ghost pre = *store;
            let a = &list[k];
            let res = self.generate_thumbnail(store, a, &facts[k]);
            assert(lv[k as int] == a@);
            proof {
                assert(lv.len() == list@.len());
                assert forall|m: int| 0 <= m < k + 1 && self.outcome(lv[m], facts@[m]) is Some implies exists|j: int|
                    0 <= j < store.assets@.len() && store.assets@[j].id == (#[trigger] lv[m]).id
                        && store.assets@[j]@.thumbnail_path == self.outcome(lv[m], facts@[m]) by {
                    if m < k {
                        let j = choose|j: int|
                            0 <= j < pre.assets@.len() && pre.assets@[j].id == lv[m].id
                                && pre.assets@[j]@.thumbnail_path == self.outcome(lv[m], facts@[m]);
                        assert(lv[m].id != lv[k as int].id);
                        assert(store.assets@[j]@ == pre.assets@[j]@);
                    } else {
                        assert(lv[m] == list@[m]@);
                        assert(pre.has_asset(list@[m].id));
                        let j = choose|j: int| 0 <= j < pre.assets@.len() && pre.assets@[j].id == list@[m].id;
                        assert(store.assets@[j]@.id == pre.assets@[j]@.id);
                    }
                }
                assert forall|m: int| 0 <= m < list@.len() implies store.has_asset(#[trigger] list@[m].id) by {
                    let j = choose|j: int| 0 <= j < pre.assets@.len() && pre.assets@[j].id == list@[m].id;
                    assert(store.assets@[j]@.id == pre.assets@[j]@.id);
                }
            }
            match res {
                Ok(Some(_)) => {
                    made = made + 1;
                },
                _ => {},
            }
            k = k + 1;
        }
        made
    }
}

proof fn lemma_filter_unique_ids(s: Seq<AssetView>, p: spec_fn(AssetView) -> bool)
    requires
        forall|a: int, b: int| 0 <= a < s.len() && 0 <= b < s.len() && a != b ==> s[a].id != s[b].id,
    ensures
        forall|a: int, b: int| 0 <= a < s.filter(p).len() && 0 <= b < s.filter(p).len() && a != b
            ==> s.filter(p)[a].id != s.filter(p)[b].id,
    decreases s.len(),
{
    reveal(Seq::filter);
    if s.len() > 0 {
        let d = s.drop_last();
        lemma_filter_unique_ids(d, p);
        let f = d.filter(p);
        if p(s.last()) {
            let g = f.push(s.last());
            assert(s.filter(p) == g);
            assert forall|k: int| 0 <= k < f.len() implies f[k].id != s.last().id by {
                assert(f.contains(f[k]));
                d.lemma_filter_contains_rev(p, f[k]);
                let q = choose|q: int| 0 <= q < d.len() && d[q] == f[k];
                assert(s[q] == d[q]);
            }
            assert forall|a: int, b: int| 0 <= a < g.len() && 0 <= b < g.len() && a != b implies g[a].id != g[b].id by {
                if a < f.len() && b < f.len() {
                    assert(g[a] == f[a] && g[b] == f[b]);
                } else if a < f.len() {
                    assert(g[a] == f[a]);
                } else {
                    assert(g[b] == f[b]);
                }
            }
        }
    }
}

/// A slot name that marks the main texture.
pub open spec fn is_main_slot(s: Seq<char>) -> bool {
    let f = fold_text(s);
    contains_text(f, "albedo"@) || contains_text(f, "diffuse"@) || contains_text(f, "maintex"@)
        || contains_text(f, "base"@)
}

/// The first slot from `i` on that marks the main texture.
pub open spec fn first_main(ts: Seq<MaterialTextureView>, i: int) -> Option<int>
    decreases ts.len() - i,
{
    if i < 0 || i >= ts.len() {
        None
    } else if is_main_slot(ts[i].slot_name) {
        Some(i)
    } else {
        first_main(ts, i + 1)
    }
}

/// The main texture of a material: the first slot that marks it, else the first slot.
pub open spec fn main_texture_spec(ts: Seq<MaterialTextureView>) -> Option<int> {
    match first_main(ts, 0) {
        Some(i) => Some(i),
        None => if ts.len() > 0 { Some(0) } else { None },
    }
}

fn slot_has(folded: &Vec<char>, word: &str) -> (r: bool)
    ensures
        r == contains_text(folded@, word@),
{
    let w = chars_of(word);
    contains_exec(folded, &w)
}

/// Position of the main texture among the material's slots.
pub fn main_texture(info: &MaterialInfo) -> (r: Option<usize>)
    ensures
        opt_index(r) == main_texture_spec(textures_view(info.textures@)),
        r matches Some(i) ==> i < info.textures@.len(),
{
    let ghost ts = textures_view(info.textures@);
    let mut i: usize = 0;
    while i < info.textures.len()
        invariant
            ts == textures_view(info.textures@),
            i <= info.textures@.len(),
            first_main(ts, i as int) == first_main(ts, 0),
        decreases info.textures@.len() - i,
    {
        let f = fold_all(&chars_of(info.textures[i].slot_name.as_str()));
        if slot_has(&f, "albedo") || slot_has(&f, "diffuse") || slot_has(&f, "maintex") || slot_has(&f, "base") {
            return Some(i);
        }
        i = i + 1;
    }
    if info.textures.len() > 0 {
        Some(0)
    } else {
        None
    }
}

/// An index, as an integer.
pub open spec fn opt_index(p: Option<usize>) -> Option<int> {
    match p {
        Some(i) => Some(i as int),
        None => None,
    }
}

/// The texture asset whose thumbnail a material reuses: the asset of the
/// material's project that holds the main texture's guid.
pub fn material_texture_source(store: &Store, material: &Asset, info: &MaterialInfo) -> (r: Option<Asset>)
    requires
        store.wf(),
    ensures
        match main_texture_spec(textures_view(info.textures@)) {
            Some(i) => match textures_view(info.textures@)[i].texture_guid {
                Some(g) => match guid_owner(store.assets_m(), material.project_id, g) {
                    Some(id) => r matches Some(a) && a.id == id && exists|j: int| 0 <= j < store.assets@.len() && store.assets@[j]@ == a@,
                    None => r is None,
                },
                None => r is None,
            },
            None => r is None,
        },
{
    match main_texture(info) {
        None => None,
        Some(i) => {
            assert(textures_view(info.textures@)[i as int] == info.textures@[i as int]@);
            match &info.textures[i].texture_guid {
                None => None,
                Some(g) => {
                    let r = store.get_asset_by_guid(material.project_id, g);
                    proof {
                        let s = store.assets_m();
                        if r is Some {
                            let a = r->Some_0;
                            let j = choose|j: int| 0 <= j < store.assets@.len() && store.assets@[j]@ == a@ && a.project_id == material.project_id && opt_view(a.guid) == Some(g@);
                            assert(s[j] == a@);
                            let c = choose|c: int| 0 <= c < s.len() && s[c].project_id == material.project_id && s[c].guid == Some(g@);
                            if c != j {
                                assert(opt_view(store.assets@[c].guid) == s[c].guid);
                                assert(opt_view(store.assets@[j].guid) != opt_view(store.assets@[c].guid));
                            }
                        } else {
                            if exists|c: int| 0 <= c < s.len() && s[c].project_id == material.project_id && s[c].guid == Some(g@) {
                                let c = choose|c: int| 0 <= c < s.len() && s[c].project_id == material.project_id && s[c].guid == Some(g@);
                                assert(opt_view(store.assets@[c].guid) == s[c].guid);
                            }
                        }
                    }
                    r
                },
            }
        },
    }
}

/// Some slot's folded name holds `word`.
pub open spec fn any_slot(ts: Seq<MaterialTextureView>, word: Seq<char>) -> bool {
    exists|k: int| 0 <= k < ts.len() && contains_text(fold_text(ts[k].slot_name), word)
}

/// Base colour of a material placeholder: red for emission, green for
/// metallic or specular, blue for normal or bump slots.
pub open spec fn tint_spec(ts: Seq<MaterialTextureView>) -> (u8, u8, u8) {
    (
        if any_slot(ts, "emission"@) { 200u8 } else { 100u8 },
        if any_slot(ts, "metallic"@) || any_slot(ts, "specular"@) { 120u8 } else { 100u8 },
        if any_slot(ts, "normal"@) || any_slot(ts, "bump"@) { 140u8 } else { 120u8 },
    )
}

fn any_slot_exec(info: &MaterialInfo, word: &str) -> (r: bool)
    ensures
        r == any_slot(textures_view(info.textures@), word@),
{
    let ghost ts = textures_view(info.textures@);
    let w = chars_of(word);
    let mut i: usize = 0;
    while i < info.textures.len()
        invariant
            ts == textures_view(info.textures@),
            w@ == word@,
            i <= info.textures@.len(),
            forall|k: int| 0 <= k < i ==> !contains_text(fold_text(ts[k].slot_name), word@),
        decreases info.textures@.len() - i,
    {
        let f = fold_all(&chars_of(info.textures[i].slot_name.as_str()));
        if contains_exec(&f, &w) {
            assert(ts[i as int].slot_name == info.textures@[i as int].slot_name@);
            return true;
        }
        i = i + 1;
    }
    false
}

/// The base colour of the placeholder drawn for a material without a usable texture.
pub fn placeholder_tint(info: &MaterialInfo) -> (r: (u8, u8, u8))
    ensures
        r == tint_spec(textures_view(info.textures@)),
{
    let red = if any_slot_exec(info, "emission") { 200u8 } else { 100u8 };
    let green = if any_slot_exec(info, "metallic") || any_slot_exec(info, "specular") { 120u8 } else { 100u8 };
    let blue = if any_slot_exec(info, "normal") || any_slot_exec(info, "bump") { 140u8 } else { 120u8 };
    (red, green, blue)
}

/// The standard base64 text of some bytes.
pub uninterp spec fn base64_of(b: Seq<u8>) -> Seq<char>;

/// Relies on base64's `STANDARD` engine `encode`: padded standard base64,
/// four characters for each started group of three bytes.
#[verifier::external_body]
fn base64_encode(data: &[u8]) -> (r: String)
    requires
        data@.len() <= 3 * (usize::MAX / 4),
    ensures
        r@ == base64_of(data@),
        r@.len() == 4 * ((data@.len() + 2) / 3),
{
    base64::engine::general_purpose::STANDARD.encode(data)
}

/// The image type of a thumbnail file, by its extension.
pub open spec fn mime_of(path: Seq<char>) -> Seq<char> {
    if ends_with(path, ".jpg"@) || ends_with(path, ".jpeg"@) {
        "image/jpeg"@
    } else if ends_with(path, ".gif"@) {
        "image/gif"@
    } else {
        "image/png"@
    }
}

/// `s` ends with `t`.
pub open spec fn ends_with(s: Seq<char>, t: Seq<char>) -> bool {
    t.len() <= s.len() && s.subrange(s.len() - t.len(), s.len() as int) == t
}

fn ends_with_exec(s: &Vec<char>, t: &str) -> (r: bool)
    ensures
        r == ends_with(s@, t@),
{
    let tc = chars_of(t);
    if tc.len() > s.len() {
        return false;
    }
    let slen = s.len();
    let off = s.len() - tc.len();
    let mut i: usize = 0;
    while i < tc.len()
        invariant
            slen == s@.len(),
            off + tc@.len() == s@.len(),
            tc@ == t@,
            i <= tc@.len(),
            forall|k: int| 0 <= k < i ==> s@[off + k] == tc@[k],
        decreases tc@.len() - i,
    {
        if s[off + i] != tc[i] {
            assert(s@.subrange(off as int, s@.len() as int)[i as int] != t@[i as int]);
            return false;
        }
        i = i + 1;
    }
    assert(s@.subrange(off as int, s@.len() as int) =~= t@);
    true
}

/// A `data:` URL with the given image type and the bytes in base64.
pub open spec fn data_url_spec(mime: Seq<char>, data: Seq<u8>) -> Seq<char> {
    "data:"@ + mime + ";base64,"@ + base64_of(data)
}

/// Builds a `data:` URL for some image bytes.
pub fn data_url(mime: &str, data: &[u8]) -> (r: String)
    requires
        data@.len() <= 3 * (usize::MAX / 4),
    ensures
        r@ == data_url_spec(mime@, data@),
{
    let mut s = String::new();
    push_str(&mut s, "data:");
    push_str(&mut s, mime);
    push_str(&mut s, ";base64,");
    let e = base64_encode(data);
    push_str(&mut s, e.as_str());
    assert(s@ =~= data_url_spec(mime@, data@));
    s
}

/// What `thumbnail_data` returns for a recorded thumbnail value and the bytes
/// read from it: sentinels as they are; a data URL of the file's bytes.
pub open spec fn thumbnail_data_spec(recorded: Option<Seq<char>>, bytes: Option<Seq<u8>>) -> Option<Seq<char>> {
    match recorded {
        None => None,
        Some(p) => if p == too_large_text() || p == unsupported_text() {
            Some(p)
        } else {
            match bytes {
                Some(d) => Some(data_url_spec(mime_of(p), d)),
                None => None,
            }
        },
    }
}

/// The payload shown for an asset's recorded thumbnail: a sentinel is echoed;
/// a path gives a data URL of `bytes`, the file's content when it could be read.
pub fn thumbnail_data(recorded: &Option<String>, bytes: Option<&[u8]>) -> (r: Option<String>)
    requires
        bytes matches Some(d) ==> d@.len() <= 3 * (usize::MAX / 4),
    ensures
        opt_view(r) == thumbnail_data_spec(opt_view(*recorded), match bytes { Some(d) => Some(d@), None => None }),
{
    match recorded {
        None => None,
        Some(p) => {
            let tl = String::from_str("TOO_LARGE");
            let un = String::from_str("UNSUPPORTED");
            if crate::text::same_text(p, &tl) || crate::text::same_text(p, &un) {
                return Some(p.clone());
            }
            match bytes {
                None => None,
                Some(d) => {
                    let pc = chars_of(p.as_str());
                    let mime = if ends_with_exec(&pc, ".jpg") || ends_with_exec(&pc, ".jpeg") {
                        "image/jpeg"
                    } else if ends_with_exec(&pc, ".gif") {
                        "image/gif"
                    } else {
                        "image/png"
                    };
                    Some(data_url(mime, d))
                },
            }
        },
    }
}
impl PreviewGenerator {
    /// Whether making the thumbnail of `asset` needs a decode of its source:
    /// a texture source of an accepted size whose thumbnail is not cached.
    pub fn needs_decode(&self, asset: &Asset, file_size: Option<u64>, cached: bool) -> (r: bool)
        ensures
            r == (asset.asset_type == AssetType::Texture && !(file_size matches Some(s) && s > MAX_TEXTURE_FILE_BYTES)
                && texture_sources().contains(fold_text(asset.extension@)) && !cached),
    {
        if asset.asset_type != AssetType::Texture || cached {
            return false;
        }
        match file_size {
            Some(s) => {
                if !file_size_accepted(s) {
                    return false;
                }
            },
            None => {},
        }
        is_texture_source(asset.extension.as_str())
    }
}

} // verus!
