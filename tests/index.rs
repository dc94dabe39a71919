use asset_library::model::{Asset, AssetType, DepKind, Dependency, LibraryError, Reference};
use asset_library::resolver::{get_bundle_preview, get_dependency_tree};
use asset_library::scanner::{build_asset_row, content_hash, is_unchanged, FileFacts, ScanStats};
use asset_library::settings::{get_model_assets, LibrarySettings};
use asset_library::store::Store;

const GA: &str = "aaaaaaaaaaaaaaaaaaaaaaaaaaaaaaaa";
const GB: &str = "bbbbbbbbbbbbbbbbbbbbbbbbbbbbbbbb";

fn file(root: &str, rel: &str, size: u64, mtime: i64, sidecar: Option<&str>, body: Option<&str>) -> FileFacts {
    let name = rel.rsplit('/').next().unwrap().to_string();
    let ext = match name.rfind('.') {
        Some(i) => name[i + 1..].to_string(),
        None => String::new(),
    };
    FileFacts {
        absolute_path: format!("{}/{}", root, rel),
        relative_path: rel.to_string(),
        file_name: name,
        extension: ext,
        size_bytes: size,
        modified_time: mtime,
        sidecar: sidecar.map(|s| s.as_bytes().to_vec()),
        body: body.map(|s| s.as_bytes().to_vec()),
    }
}

fn project(store: &mut Store, root: &str) -> u64 {
    store.get_or_create_project(&root.to_string(), &"proj".to_string()).unwrap().id
}

fn add(store: &mut Store, pid: u64, f: FileFacts) -> u64 {
    store.upsert_asset(build_asset_row(pid, f)).unwrap()
}

fn edge(src: u64, dst: u64) -> Dependency {
    Dependency { source_asset_id: src, target_asset_id: dst, kind: DepKind::Guid, slot_name: None }
}

#[test]
fn project_creation_is_idempotent() {
    let mut store = Store::new();
    let a = project(&mut store, "/p");
    let b = project(&mut store, "/p");
    let c = project(&mut store, "/q");
    assert_eq!(a, b);
    assert_ne!(a, c);
    assert_eq!(store.projects.len(), 2);
}

#[test]
fn guid_lookup_finds_each_asset() {
    let mut store = Store::new();
    let pid = project(&mut store, "/p");
    let meta_a = format!("fileFormatVersion: 2\nguid: {}\n", GA);
    let meta_b = format!("fileFormatVersion: 2\nguid: {}\n", GB);
    let a = add(&mut store, pid, file("/p", "a.png", 10, 1, Some(&meta_a), None));
    let b = add(&mut store, pid, file("/p", "b.png", 10, 1, Some(&meta_b), None));
    assert_eq!(store.get_asset_by_guid(pid, &GA.to_string()).unwrap().id, a);
    assert_eq!(store.get_asset_by_guid(pid, &GB.to_string()).unwrap().id, b);
    assert!(store.get_asset_by_guid(pid, &"c".repeat(32)).is_none());
}

#[test]
fn duplicate_guid_is_not_taken_twice() {
    let mut store = Store::new();
    let pid = project(&mut store, "/p");
    let meta = format!("guid: {}\n", GA);
    let a = add(&mut store, pid, file("/p", "a.png", 10, 1, Some(&meta), None));
    let b = add(&mut store, pid, file("/p", "b.png", 10, 1, Some(&meta), None));
    assert_eq!(store.get_asset_by_guid(pid, &GA.to_string()).unwrap().id, a);
    assert!(store.get_asset(b).unwrap().guid.is_none());
}

#[test]
fn upsert_keeps_thumbnail_only_when_unchanged() {
    let mut store = Store::new();
    let pid = project(&mut store, "/p");
    let a = add(&mut store, pid, file("/p", "a.png", 10, 1, None, None));
    store.update_asset_thumbnail(a, &"/cache/x.png".to_string()).unwrap();
    let again = add(&mut store, pid, file("/p", "a.png", 10, 1, None, None));
    assert_eq!(again, a);
    assert_eq!(store.get_asset(a).unwrap().thumbnail_path, Some("/cache/x.png".to_string()));
    add(&mut store, pid, file("/p", "a.png", 10, 2, None, None));
    assert_eq!(store.get_asset(a).unwrap().thumbnail_path, None);
    assert_eq!(store.assets.len(), 1);
}

#[test]
fn upsert_into_unknown_project_fails() {
    let mut store = Store::new();
    let r = store.upsert_asset(build_asset_row(42, file("/p", "a.png", 1, 1, None, None)));
    assert!(matches!(r, Err(LibraryError::InvalidProject)));
}

#[test]
fn update_thumbnail_of_missing_asset_fails() {
    let mut store = Store::new();
    let r = store.update_asset_thumbnail(9, &"x".to_string());
    assert!(matches!(r, Err(LibraryError::AssetNotFound(9))));
}

#[test]
fn pages_concatenate_to_listing_in_path_order() {
    let mut store = Store::new();
    let pid = project(&mut store, "/p");
    for name in ["g.png", "c.png", "a.png", "f.png", "b.png", "e.png", "d.png"] {
        add(&mut store, pid, file("/p", name, 1, 1, None, None));
    }
    let (all, total) = store.get_assets(pid, &None, &None, 0, 100);
    assert_eq!(total, 7);
    let names: Vec<String> = all.iter().map(|a| a.relative_path.clone()).collect();
    assert_eq!(names, vec!["a.png", "b.png", "c.png", "d.png", "e.png", "f.png", "g.png"]);
    let mut joined: Vec<String> = Vec::new();
    for page in 0..3 {
        let (part, t) = store.get_assets(pid, &None, &None, page, 3);
        assert_eq!(t, 7);
        joined.extend(part.iter().map(|a| a.relative_path.clone()));
    }
    assert_eq!(joined, names);
    let (beyond, _) = store.get_assets(pid, &None, &None, 5, 3);
    assert!(beyond.is_empty());
}

#[test]
fn search_ignores_ascii_case_and_types_filter() {
    let mut store = Store::new();
    let pid = project(&mut store, "/p");
    add(&mut store, pid, file("/p", "Textures/Rock.PNG", 1, 1, None, None));
    add(&mut store, pid, file("/p", "Materials/rock.mat", 1, 1, None, None));
    add(&mut store, pid, file("/p", "Scripts/Player.cs", 1, 1, None, None));
    let (hits, total) = store.get_assets(pid, &Some("ROCK".to_string()), &None, 0, 10);
    assert_eq!(total, 2);
    assert_eq!(hits[0].relative_path, "Materials/rock.mat");
    let (mats, total) = store.get_assets(pid, &Some("rock".to_string()), &Some(vec![AssetType::Material]), 0, 10);
    assert_eq!(total, 1);
    assert_eq!(mats[0].asset_type, AssetType::Material);
    let (dir, total) = store.get_assets(pid, &Some("scripts/".to_string()), &None, 0, 10);
    assert_eq!(total, 1);
    assert_eq!(dir[0].file_name, "Player.cs");
}

#[test]
fn listing_is_per_project() {
    let mut store = Store::new();
    let p = project(&mut store, "/p");
    let q = project(&mut store, "/q");
    add(&mut store, p, file("/p", "a.png", 1, 1, None, None));
    add(&mut store, q, file("/q", "a.png", 1, 1, None, None));
    add(&mut store, q, file("/q", "b.png", 1, 1, None, None));
    assert_eq!(store.get_assets(p, &None, &None, 0, 10).1, 1);
    assert_eq!(store.get_assets(q, &None, &None, 0, 10).1, 2);
}

#[test]
fn type_counts_per_type() {
    let mut store = Store::new();
    let pid = project(&mut store, "/p");
    add(&mut store, pid, file("/p", "a.png", 1, 1, None, None));
    add(&mut store, pid, file("/p", "b.jpg", 1, 1, None, None));
    add(&mut store, pid, file("/p", "c.mat", 1, 1, None, None));
    let counts = store.get_type_counts(pid);
    assert_eq!(counts.len(), 2);
    assert_eq!((counts[0].asset_type, counts[0].count), (AssetType::Texture, 2));
    assert_eq!((counts[1].asset_type, counts[1].count), (AssetType::Material, 1));
}

#[test]
fn dependency_through_guid_sidecars() {
    let mut store = Store::new();
    let pid = project(&mut store, "/p");
    let a_meta = format!("guid: {}\n", GA);
    let b_meta = format!("guid: {}\n", GB);
    let a_body = format!(
        "Material:\n  m_SavedProperties:\n    m_TexEnvs:\n    - _MainTex:\n        m_Texture: {{fileID: 2800000, guid: {}, type: 3}}\n",
        GB
    );
    let a = add(&mut store, pid, file("/p", "a.mat", 100, 1, Some(&a_meta), Some(&a_body)));
    let b = add(&mut store, pid, file("/p", "b.png", 200, 1, Some(&b_meta), None));
    assert_eq!(store.resolve_all_for_project(pid), 2);
    let deps = store.get_dependencies(a);
    assert_eq!(deps.len(), 1);
    assert_eq!(deps[0].source_asset_id, a);
    assert_eq!(deps[0].target_asset_id, b);
    assert_eq!(deps[0].kind, DepKind::Guid);
    assert_eq!(deps[0].slot_name, Some("_MainTex".to_string()));
    let back = store.get_dependents(b);
    assert_eq!(back.len(), 1);
    assert_eq!(back[0].source_asset_id, a);
    store.resolve_all_for_project(pid);
    assert_eq!(store.get_dependencies(a).len(), 1);
}

#[test]
fn unresolved_reference_gives_no_edge() {
    let mut store = Store::new();
    let pid = project(&mut store, "/p");
    let body = format!("- _MainTex:\n    m_Texture: {{guid: {}}}\n", GB);
    let a = add(&mut store, pid, file("/p", "a.mat", 1, 1, None, Some(&body)));
    store.resolve_asset_dependencies(a).unwrap();
    assert!(store.get_dependencies(a).is_empty());
    assert!(matches!(store.resolve_asset_dependencies(99), Err(LibraryError::AssetNotFound(99))));
}

#[test]
fn edges_across_projects_are_dropped() {
    let mut store = Store::new();
    let p = project(&mut store, "/p");
    let q = project(&mut store, "/q");
    let a = add(&mut store, p, file("/p", "a.mat", 1, 1, None, None));
    let b = add(&mut store, q, file("/q", "b.png", 1, 1, None, None));
    let c = add(&mut store, p, file("/p", "c.png", 1, 1, None, None));
    store.replace_dependencies(a, &vec![edge(a, b), edge(a, c), edge(a, c), edge(c, a)]);
    let deps = store.get_dependencies(a);
    assert_eq!(deps.len(), 1);
    assert_eq!(deps[0].target_asset_id, c);
    assert!(store.get_dependencies(c).is_empty());
}

#[test]
fn bundle_of_a_chain() {
    let mut store = Store::new();
    let pid = project(&mut store, "/p");
    let mut ids = Vec::new();
    for (i, name) in ["a", "b", "c", "d", "e", "f", "g"].iter().enumerate() {
        ids.push(add(&mut store, pid, file("/p", &format!("{}.mat", name), 10 * (i as u64 + 1), 1, None, None)));
    }
    for w in ids.windows(2) {
        store.replace_dependencies(w[0], &vec![edge(w[0], w[1])]);
    }
    let tree = get_dependency_tree(&store, ids[0], 5);
    assert_eq!(tree, ids[1..6].to_vec());
    let bundle = get_bundle_preview(&store, ids[0]).unwrap();
    assert_eq!(bundle.root_asset.id, ids[0]);
    let dep_ids: Vec<u64> = bundle.dependencies.iter().map(|d| d.id).collect();
    assert_eq!(dep_ids, ids[1..6].to_vec());
    assert_eq!(bundle.total_size_bytes, 10 + 20 + 30 + 40 + 50 + 60);
    assert!(matches!(get_bundle_preview(&store, 999), Err(LibraryError::AssetNotFound(999))));
}

#[test]
fn dependency_tree_breaks_cycles() {
    let mut store = Store::new();
    let pid = project(&mut store, "/p");
    let a = add(&mut store, pid, file("/p", "a.mat", 1, 1, None, None));
    let b = add(&mut store, pid, file("/p", "b.mat", 1, 1, None, None));
    let c = add(&mut store, pid, file("/p", "c.mat", 1, 1, None, None));
    store.replace_dependencies(a, &vec![edge(a, b), edge(a, c)]);
    store.replace_dependencies(b, &vec![edge(b, a), edge(b, c)]);
    store.replace_dependencies(c, &vec![edge(c, a)]);
    let tree = get_dependency_tree(&store, a, 5);
    assert_eq!(tree, vec![b, c]);
    assert!(get_dependency_tree(&store, a, 0).is_empty());
}

#[test]
fn rescan_of_unchanged_tree_changes_nothing() {
    let mut store = Store::new();
    let pid = project(&mut store, "/p");
    let files = [("a.png", 10u64, 5i64), ("b.mat", 20, 6), ("c.cs", 30, 7)];
    let mut first = ScanStats::new();
    for (name, size, mtime) in files {
        let existing = store.get_existing_asset_info(pid);
        let unchanged = is_unchanged(&existing, &format!("/p/{}", name), size, mtime);
        first.record(unchanged);
        if !unchanged {
            add(&mut store, pid, file("/p", name, size, mtime, None, None));
        }
    }
    assert_eq!((first.total_files, first.unchanged_skipped, first.new_or_changed), (3, 0, 3));
    let existing = store.get_existing_asset_info(pid);
    let mut second = ScanStats::new();
    for (name, size, mtime) in files {
        second.record(is_unchanged(&existing, &format!("/p/{}", name), size, mtime));
    }
    assert_eq!((second.total_files, second.unchanged_skipped, second.new_or_changed), (3, 3, 0));
    assert!(!is_unchanged(&existing, &"/p/a.png".to_string(), 10, 99));
}

#[test]
fn empty_project_has_nothing() {
    let mut store = Store::new();
    let pid = project(&mut store, "/empty");
    assert_eq!(store.get_assets(pid, &None, &None, 0, 50).1, 0);
    assert!(store.get_type_counts(pid).is_empty());
    assert_eq!(store.resolve_all_for_project(pid), 0);
    assert!(store.get_existing_asset_info(pid).is_empty());
    assert_eq!(store.count_thumbnail_assets(pid), 0);
}

#[test]
fn fingerprint_is_size_and_time() {
    assert_eq!(content_hash(1024, 1700000000), "1024-1700000000");
    assert_eq!(content_hash(0, -5), "0--5");
}

#[test]
fn scan_stats_count() {
    let mut s = ScanStats::new();
    s.record(true);
    s.record(false);
    s.record(false);
    assert_eq!((s.total_files, s.unchanged_skipped, s.new_or_changed), (3, 1, 2));
}

#[test]
fn thumbnail_queue_and_clearing() {
    let mut store = Store::new();
    let pid = project(&mut store, "/p");
    let a = add(&mut store, pid, file("/p", "a.png", 1, 1, None, None));
    add(&mut store, pid, file("/p", "b.mat", 1, 1, None, None));
    add(&mut store, pid, file("/p", "c.cs", 1, 1, None, None));
    assert_eq!(store.count_thumbnail_assets(pid), 2);
    assert_eq!(store.get_assets_needing_thumbnails(pid, 10).len(), 2);
    assert_eq!(store.get_assets_needing_thumbnails(pid, 1).len(), 1);
    store.update_asset_thumbnail(a, &"TOO_LARGE".to_string()).unwrap();
    assert_eq!(store.get_assets_needing_thumbnails(pid, 10).len(), 1);
    store.clear_thumbnail_paths(pid);
    assert_eq!(store.get_assets_needing_thumbnails(pid, 10).len(), 2);
}

#[test]
fn scan_time_is_recorded() {
    let mut store = Store::new();
    let pid = project(&mut store, "/p");
    store.update_project_scan_time(pid, 12, 1700).unwrap();
    let p = store.get_project(pid).unwrap();
    assert_eq!((p.file_count, p.last_scan_time), (12, Some(1700)));
    assert!(matches!(store.update_project_scan_time(77, 1, 1), Err(LibraryError::InvalidProject)));
}

#[test]
fn model_assets_listed() {
    let mut store = Store::new();
    let pid = project(&mut store, "/p");
    add(&mut store, pid, file("/p", "m.fbx", 1, 3, None, None));
    add(&mut store, pid, file("/p", "t.png", 1, 3, None, None));
    let models = get_model_assets(&store, pid);
    assert_eq!(models.len(), 1);
    assert_eq!(models[0].extension, "fbx");
    assert_eq!(models[0].modified_time, 3);
}

#[test]
fn default_settings() {
    let s = LibrarySettings::default();
    assert_eq!(s.ignore_patterns.len(), 17);
    assert_eq!(s.ignore_patterns[0], "Library/");
    assert_eq!(s.thumbnail_size, 128);
    assert!(s.scan_on_focus);
    assert!(s.project_root.is_none());
}

#[test]
fn asset_rows_copy_exactly() {
    let a: Asset = build_asset_row(1, file("/p", "x/y.PNG", 5, 9, None, None));
    assert_eq!(a.asset_type, AssetType::Texture);
    assert_eq!(a.file_name, "y.PNG");
    assert_eq!(a.content_hash, "5-9");
    let b = a.copy();
    assert_eq!(b.relative_path, a.relative_path);
}

#[test]
fn path_references_resolve_beside_then_under_root() {
    let mut store = Store::new();
    let pid = project(&mut store, "/p");
    let beside = add(&mut store, pid, file("/p", "Art/wood.png", 1, 1, None, None));
    let rooted = add(&mut store, pid, file("/p", "Shared/stone.png", 1, 1, None, None));
    let mut row = build_asset_row(pid, file("/p", "Art/floor.prefab", 1, 1, None, None));
    row.references = vec![
        Reference { kind: DepKind::Path, target: "wood.png".to_string(), slot_name: None },
        Reference { kind: DepKind::Path, target: "Shared/stone.png".to_string(), slot_name: None },
        Reference { kind: DepKind::Path, target: "missing.png".to_string(), slot_name: None },
    ];
    let src = store.upsert_asset(row).unwrap();
    store.resolve_asset_dependencies(src).unwrap();
    let targets: Vec<u64> = store.get_dependencies(src).iter().map(|d| d.target_asset_id).collect();
    assert_eq!(targets, vec![beside, rooted]);
}

#[test]
fn batch_upsert_is_all_or_nothing() {
    let mut store = Store::new();
    let pid = project(&mut store, "/p");
    let good = vec![
        build_asset_row(pid, file("/p", "a.png", 1, 1, None, None)),
        build_asset_row(pid, file("/p", "b.png", 1, 1, None, None)),
        build_asset_row(pid, file("/p", "a.png", 2, 2, None, None)),
    ];
    assert_eq!(store.upsert_assets(good).unwrap(), 3);
    assert_eq!(store.assets.len(), 2);
    let bad = vec![
        build_asset_row(pid, file("/p", "c.png", 1, 1, None, None)),
        build_asset_row(pid + 100, file("/p", "d.png", 1, 1, None, None)),
    ];
    assert!(matches!(store.upsert_assets(bad), Err(LibraryError::InvalidProject)));
    assert_eq!(store.assets.len(), 2);
    let (rows, _) = store.get_assets(pid, &None, &None, 0, 10);
    assert_eq!(rows[0].size_bytes, 2);
}
