//! The library as its clients use it: one context with the index, the
//! settings and the scan slot, and one method per request.
use vstd::prelude::*;
use crate::extract::{MaterialInfo, material_of, parse_material};
use crate::mesh::{ModelInfo, model_info_of, parse_model_info};
use crate::model::{Asset, AssetType, Dependency, LibraryError, Project, TypeCount, deps_view};
use crate::orchestrator::ScanSlot;
use crate::query::{listing, page_of, query_view, types_view};
use crate::settings::{AssetsResponse, LibrarySettings, LibrarySettingsResponse, project_name, project_name_spec};
use crate::store::{Store, enters, leaves};
use crate::text::{fold_text, opt_view};

verus! {

/// Index, settings and scan slot of one process.
#[derive(Debug)]
pub struct Library {
    pub store: Store,
    pub settings: LibrarySettings,
    pub slot: ScanSlot,
}

impl Library {
    pub open spec fn wf(&self) -> bool {
        self.store.wf()
    }

    pub fn new(settings: LibrarySettings) -> (r: Library)
        ensures
            r.wf(),
            r.store.assets@.len() == 0,
            r.store.projects@.len() == 0,
            !r.slot.running,
    {
        Library { store: Store::new(), settings, slot: ScanSlot::new() }
    }

    /// Makes `path` the project root. `is_dir` says whether the path is an
    /// existing directory; when it is not, the request fails.
    pub fn set_project_root(&mut self, path: &String, is_dir: bool) -> (r: Result<Project, LibraryError>)
        requires
            old(self).wf(),
        ensures
            final(self).wf(),
            !is_dir ==> r == Err::<Project, LibraryError>(LibraryError::InvalidProject) && *final(self) == *old(self),
            is_dir && r is Ok ==> opt_view(final(self).settings.project_root) == Some(path@)
                && r->Ok_0.root_path@ == path@ && final(self).store.has_project(r->Ok_0.id),
            forall|i: int|
                0 <= i < old(self).store.projects@.len() && old(self).store.projects@[i].root_path@ == path@ && is_dir
                    ==> r is Ok && r->Ok_0.id == old(self).store.projects@[i].id && final(self).store == old(self).store,
            is_dir && (exists|i: int| 0 <= i < old(self).store.projects@.len() && old(self).store.projects@[i].root_path@ == path@) ==> r is Ok,
            is_dir && old(self).store.next_id < u64::MAX ==> r is Ok,
            is_dir && (forall|i: int| 0 <= i < old(self).store.projects@.len() ==> old(self).store.projects@[i].root_path@ != path@)
                && old(self).store.next_id < u64::MAX ==> r->Ok_0.name@ == project_name_spec(path@),
    {
        if !is_dir {
            return Err(LibraryError::InvalidProject);
        }
        let name = project_name(path.as_str());
        let p = self.store.get_or_create_project(path, &name);
        match p {
            Ok(p) => {
                self.settings.project_root = Some(path.clone());
                Ok(p)
            },
            Err(e) => Err(e),
        }
    }

    /// Sets the folder that exports go to.
    pub fn set_output_folder(&mut self, path: String)
        ensures
            opt_view(final(self).settings.output_folder) == Some(path@),
            final(self).store == old(self).store,
    {
        self.settings.output_folder = Some(path);
    }

    pub fn get_settings(&self) -> (r: LibrarySettingsResponse)
        ensures
            opt_view(r.project_root) == opt_view(self.settings.project_root),
            opt_view(r.output_folder) == opt_view(self.settings.output_folder),
    {
        self.settings.response()
    }

    /// The project of the configured root, if any.
    pub fn get_current_project(&self) -> (r: Option<Project>)
        ensures
            self.settings.project_root is None ==> r is None,
            self.settings.project_root matches Some(root) ==> (r is Some <==> exists|i: int|
                0 <= i < self.store.projects@.len() && self.store.projects@[i].root_path@ == root@),
            r matches Some(p) ==> opt_view(self.settings.project_root) == Some(p.root_path@),
    {
        match &self.settings.project_root {
            None => None,
            Some(root) => self.store.get_project_by_path(root),
        }
    }

    /// A page of the listing of project `pid`.
    pub fn get_assets(&self, pid: u64, search: &Option<String>, types: &Option<Vec<AssetType>>, page: usize, page_size: usize) -> (r: AssetsResponse)
        ensures
            r.total == listing(self.store.assets_m(), pid, query_view(*search), types_view(*types)).len(),
            crate::model::assets_view(r.assets@) == page_of(
                listing(self.store.assets_m(), pid, query_view(*search), types_view(*types)),
                page as nat,
                page_size as nat,
            ),
    {
        let (assets, total) = self.store.get_assets(pid, search, types, page, page_size);
        AssetsResponse { assets, total }
    }

    /// The asset with id `id`.
    pub fn get_asset(&self, id: u64) -> (r: Result<Asset, LibraryError>)
        ensures
            r is Ok <==> self.store.has_asset(id),
            r is Err ==> r == Err::<Asset, LibraryError>(LibraryError::AssetNotFound(id)),
            r matches Ok(a) ==> a.id == id && exists|i: int| 0 <= i < self.store.assets@.len() && self.store.assets@[i]@ == a@,
    {
        match self.store.get_asset(id) {
            Some(a) => Ok(a),
            None => Err(LibraryError::AssetNotFound(id)),
        }
    }

    pub fn get_dependencies(&self, id: u64) -> (r: Vec<Dependency>)
        ensures
            deps_view(r@) == self.store.deps_m().filter(leaves(id)),
    {
        self.store.get_dependencies(id)
    }

    pub fn get_dependents(&self, id: u64) -> (r: Vec<Dependency>)
        ensures
            deps_view(r@) == self.store.deps_m().filter(enters(id)),
    {
        self.store.get_dependents(id)
    }

    pub fn get_type_counts(&self, pid: u64) -> (r: Vec<TypeCount>)
        ensures
            r@ == crate::query::tally(self.store.assets_m(), pid, crate::query::all_types()),
    {
        self.store.get_type_counts(pid)
    }

    /// The material information of asset `id`, from `body`, the content of
    /// its file when it could be read; `None` for assets of other types.
    pub fn get_material_info(&self, id: u64, body: Option<&[u8]>) -> (r: Result<Option<MaterialInfo>, LibraryError>)
        requires
            self.wf(),
        ensures
            !self.store.has_asset(id) ==> r == Err::<Option<MaterialInfo>, LibraryError>(LibraryError::AssetNotFound(id)),
            self.store.has_asset(id) ==> (r matches Ok(m) && ({
                let a = crate::resolver::asset_with(self.store.assets_m(), id);
                match m {
                    Some(info) => a.asset_type == AssetType::Material && (body matches Some(b) && info@ == material_of(b@)),
                    None => a.asset_type != AssetType::Material || body is None,
                }
            })),
    {
        let a = match self.store.get_asset(id) {
            Some(a) => a,
            None => return Err(LibraryError::AssetNotFound(id)),
        };
        proof {
            crate::resolver::lemma_found_is_chosen(&self.store, a, id);
        }
        if a.asset_type != AssetType::Material {
            return Ok(None);
        }
        match body {
            Some(b) => Ok(Some(parse_material(b))),
            None => Ok(None),
        }
    }

    /// The model information of asset `id`, from `body`, the content of its
    /// file when it could be read; `None` for assets of other types.
    pub fn get_model_info(&self, id: u64, body: Option<&[u8]>) -> (r: Result<Option<ModelInfo>, LibraryError>)
        requires
            self.wf(),
        ensures
            !self.store.has_asset(id) ==> r == Err::<Option<ModelInfo>, LibraryError>(LibraryError::AssetNotFound(id)),
            self.store.has_asset(id) ==> (r matches Ok(m) && ({
                let a = crate::resolver::asset_with(self.store.assets_m(), id);
                if a.asset_type == AssetType::Model && body is Some {
                    m == model_info_of(fold_text(a.extension), body->Some_0@)
                } else {
                    m is None
                }
            })),
    {
        let a = match self.store.get_asset(id) {
            Some(a) => a,
            None => return Err(LibraryError::AssetNotFound(id)),
        };
        proof {
            crate::resolver::lemma_found_is_chosen(&self.store, a, id);
        }
        if a.asset_type != AssetType::Model {
            return Ok(None);
        }
        match body {
            Some(b) => Ok(parse_model_info(a.extension.as_str(), b)),
            None => Ok(None),
        }
    }
}

} // verus!
