//! Properties that relate several operations of the library, proved.
use vstd::prelude::*;
use crate::model::AssetType;
use crate::preview::{DimensionVerdict, PreviewGenerator, SourceFacts, dimension_verdict_spec};
use crate::resolver::guid_owner;
use crate::scanner::unchanged_spec;
use crate::store::{ExistingFile, Store, in_project};
use crate::text::opt_view;

verus! {

/// Every row of the index is the only one of its project at its path.
pub proof fn law_one_row_per_path(store: &Store, i: int, j: int)
    requires
        store.wf(),
        0 <= i < store.assets@.len(),
        0 <= j < store.assets@.len(),
        store.assets@[i].project_id == store.assets@[j].project_id,
        store.assets@[i].absolute_path@ == store.assets@[j].absolute_path@,
    ensures
        i == j,
{
}

/// Every edge joins two assets of one project.
pub proof fn law_edges_stay_in_project(store: &Store, k: int)
    requires
        store.wf(),
        0 <= k < store.deps@.len(),
    ensures
        exists|i: int, j: int|
            0 <= i < store.assets@.len() && 0 <= j < store.assets@.len() && store.assets@[i].id
                == store.deps@[k].source_asset_id && store.assets@[j].id == store.deps@[k].target_asset_id
                && store.assets@[i].project_id == store.assets@[j].project_id,
{
    assert(store.edge_ok(store.deps@[k]@));
}

/// Looking an asset's guid up in its project finds that asset.
pub proof fn law_guid_lookup_finds_owner(store: &Store, i: int)
    requires
        store.wf(),
        0 <= i < store.assets@.len(),
        store.assets@[i].guid is Some,
    ensures
        guid_owner(store.assets_m(), store.assets@[i].project_id, opt_view(store.assets@[i].guid)->Some_0)
            == Some(store.assets@[i].id),
        forall|j: int|
            0 <= j < store.assets@.len() && store.assets@[j].project_id == store.assets@[i].project_id
                && opt_view(store.assets@[j].guid) == opt_view(store.assets@[i].guid) ==> j == i,
{
    let s = store.assets_m();
    let pid = store.assets@[i].project_id;
    let g = opt_view(store.assets@[i].guid)->Some_0;
    assert(s[i].project_id == pid && s[i].guid == Some(g));
    let c = choose|c: int| 0 <= c < s.len() && s[c].project_id == pid && s[c].guid == Some(g);
    assert(s[c] == store.assets@[c]@);
    if c != i {
        assert(opt_view(store.assets@[i].guid) != opt_view(store.assets@[c].guid));
    }
}

/// A file that the index holds with its size and modification time looks
/// unchanged against the baseline that `get_existing_asset_info` gives, so a
/// second scan of an unchanged tree re-reads nothing.
pub proof fn law_rescan_sees_no_change(store: &Store, i: int, baseline: Seq<ExistingFile>)
    requires
        store.wf(),
        0 <= i < store.assets@.len(),
        baseline.len() == store.assets_m().filter(in_project(store.assets@[i].project_id)).len(),
        forall|k: int| 0 <= k < baseline.len() ==> {
            let a = #[trigger] store.assets_m().filter(in_project(store.assets@[i].project_id))[k];
            &&& baseline[k].absolute_path@ == a.absolute_path
            &&& baseline[k].size_bytes == a.size_bytes
            &&& baseline[k].modified_time == a.modified_time
            &&& baseline[k].id == a.id
        },
    ensures
        unchanged_spec(baseline, store.assets@[i].absolute_path@, store.assets@[i].size_bytes, store.assets@[i].modified_time),
{
    let s = store.assets_m();
    let p = in_project(store.assets@[i].project_id);
    let f = s.filter(p);
    assert(p(s[i]));
    s.lemma_filter_contains(p, i);
    let k = choose|k: int| 0 <= k < f.len() && f[k] == s[i];
    assert(baseline[k].absolute_path@ == f[k].absolute_path);
}

/// A texture whose thumbnail was written once is served from the cache
/// afterwards: the same path comes back, whatever a decode would give, so
/// nothing is decoded or encoded again.
pub proof fn law_cached_thumbnail_is_stable(g: PreviewGenerator, a: crate::model::AssetView, first: SourceFacts, again: SourceFacts)
    requires
        a.asset_type == AssetType::Texture,
        first.file_size == again.file_size,
        !first.cached,
        first.decoded matches Some((w, h)) && dimension_verdict_spec(w, h) == DimensionVerdict::Accept,
        first.saved,
        again.cached,
    ensures
        g.outcome(a, again) == g.outcome(a, first),
        forall|f: SourceFacts| f.cached && f.file_size == again.file_size ==> g.outcome(a, f) == g.outcome(a, again),
{
}

/// Resolving twice gives the same edges: what an asset's references resolve
/// to depends on the assets and projects alone, which resolution leaves as
/// they are.
pub proof fn law_resolution_is_idempotent(first: &Store, second: &Store, j: int)
    requires
        first.assets == second.assets,
        first.projects == second.projects,
        0 <= j < first.assets@.len(),
    ensures
        first.resolved_for(j) == second.resolved_for(j),
{
    let a = first.assets@[j];
    crate::resolver::lemma_accepted_same(
        first,
        second,
        a.id,
        crate::resolver::resolved_edges(first.assets_m(), a@, crate::resolver::root_of(first, a.project_id), a@.references),
    );
}

/// Writing again the row of a file that did not change leaves the index's
/// row as it was, thumbnail and id included: the row the scanner builds for
/// it differs only in the id and thumbnail that the index keeps.
pub proof fn law_rewrite_keeps_row(store: &Store, i: int, row: crate::model::AssetView)
    requires
        store.wf(),
        0 <= i < store.assets@.len(),
        row == (crate::model::AssetView { id: row.id, thumbnail_path: row.thumbnail_path, ..store.assets@[i]@ }),
    ensures
        crate::store::merged(store.assets@[i]@, row, !store.guid_held(row.project_id, row.guid, i)) == store.assets@[i]@,
{
    if row.guid is Some {
        if store.guid_held(row.project_id, row.guid, i) {
            let j = choose|j: int|
                0 <= j < store.assets@.len() && j != i && store.assets@[j].project_id == row.project_id
                    && opt_view(store.assets@[j].guid) == row.guid;
            assert(opt_view(store.assets@[i].guid) != opt_view(store.assets@[j].guid));
        }
    }
}

/// A material whose thumbnail (a copied texture thumbnail or the placeholder)
/// was written once is served from the cache afterwards at the same path,
/// with nothing drawn or copied again.
pub proof fn law_cached_material_is_stable(g: PreviewGenerator, a: crate::model::AssetView, first: SourceFacts, again: SourceFacts)
    requires
        a.asset_type == AssetType::Material,
        first.material is Some,
        first.saved || first.texture_copied,
        again.material is Some,
        again.cached,
    ensures
        g.outcome(a, again) == g.outcome(a, first),
        g.outcome(a, again) == Some(g.cache_path(a, true)),
{
}

} // verus!
