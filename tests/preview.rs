use asset_library::extract::{parse_material, MaterialInfo};
use asset_library::orchestrator::{after_thumbnail_batch, before_thumbnail_batch, should_refresh, ScanEvent, ScanMachine, ScanPhase, ScanSlot, ThumbnailPhase};
use asset_library::preview::{data_url, dimension_verdict, file_size_accepted, main_texture, material_texture_source, placeholder_tint, thumbnail_data, DimensionVerdict, PreviewGenerator, SourceFacts};
use asset_library::scanner::{build_asset_row, FileFacts, ScanStats};
use asset_library::store::Store;

fn facts(size: Option<u64>, cached: bool, decoded: Option<(u32, u32)>, saved: bool) -> SourceFacts {
    SourceFacts { file_size: size, cached, decoded, saved, material: None, texture_copied: false }
}

fn texture(store: &mut Store, name: &str) -> u64 {
    let pid = store.get_or_create_project(&"/p".to_string(), &"p".to_string()).unwrap().id;
    let ext = name.rsplit('.').next().unwrap().to_string();
    let row = build_asset_row(
        pid,
        FileFacts {
            absolute_path: format!("/p/{}", name),
            relative_path: name.to_string(),
            file_name: name.to_string(),
            extension: ext,
            size_bytes: 1,
            modified_time: 77,
            sidecar: None,
            body: None,
        },
    );
    store.upsert_asset(row).unwrap()
}

#[test]
fn file_size_boundary() {
    assert!(file_size_accepted(50 * 1024 * 1024));
    assert!(!file_size_accepted(50 * 1024 * 1024 + 1));
}

#[test]
fn dimension_boundaries() {
    assert_eq!(dimension_verdict(2048, 2048), DimensionVerdict::Accept);
    assert_eq!(dimension_verdict(2049, 2048), DimensionVerdict::TooLarge);
    assert_eq!(dimension_verdict(2048, 2049), DimensionVerdict::TooLarge);
    assert_eq!(dimension_verdict(3000, 3000), DimensionVerdict::TooLarge);
    assert_eq!(dimension_verdict(0, 10), DimensionVerdict::Unsupported);
    assert_eq!(dimension_verdict(1, 1), DimensionVerdict::Accept);
}

#[test]
fn large_png_records_too_large() {
    let mut store = Store::new();
    let id = texture(&mut store, "big.png");
    let g = PreviewGenerator::new("/cache".to_string(), 128);
    let a = store.get_asset(id).unwrap();
    let r = g.generate_thumbnail(&mut store, &a, &facts(Some(1000), false, Some((3000, 3000)), false)).unwrap();
    assert_eq!(r, Some("TOO_LARGE".to_string()));
    let recorded = store.get_asset(id).unwrap().thumbnail_path;
    assert_eq!(recorded, Some("TOO_LARGE".to_string()));
    assert_eq!(thumbnail_data(&recorded, None), Some("TOO_LARGE".to_string()));
    assert!(store.get_assets_needing_thumbnails(a.project_id, 10).is_empty());
}

#[test]
fn oversized_file_is_too_large() {
    let mut store = Store::new();
    let id = texture(&mut store, "huge.png");
    let g = PreviewGenerator::new("/cache".to_string(), 128);
    let a = store.get_asset(id).unwrap();
    let r = g.generate_thumbnail(&mut store, &a, &facts(Some(50 * 1024 * 1024 + 1), false, None, false)).unwrap();
    assert_eq!(r, Some("TOO_LARGE".to_string()));
    assert!(!g.needs_decode(&a, Some(50 * 1024 * 1024 + 1), false));
    assert!(g.needs_decode(&a, Some(50 * 1024 * 1024), false));
}

#[test]
fn hung_decoder_gives_unsupported() {
    let mut store = Store::new();
    let id = texture(&mut store, "slow.tga");
    let g = PreviewGenerator::new("/cache".to_string(), 128);
    let a = store.get_asset(id).unwrap();
    let r = g.generate_thumbnail(&mut store, &a, &facts(Some(10), false, None, false)).unwrap();
    assert_eq!(r, Some("UNSUPPORTED".to_string()));
    let zero = g.generate_thumbnail(&mut store, &a, &facts(Some(10), false, Some((0, 5)), false)).unwrap();
    assert_eq!(zero, Some("UNSUPPORTED".to_string()));
}

#[test]
fn cached_thumbnail_is_reused() {
    let mut store = Store::new();
    let id = texture(&mut store, "ok.png");
    let g = PreviewGenerator::new("/cache".to_string(), 128);
    let a = store.get_asset(id).unwrap();
    let first = g.generate_thumbnail(&mut store, &a, &facts(Some(10), false, Some((512, 256)), true)).unwrap().unwrap();
    assert!(first.starts_with("/cache/"));
    assert!(first.ends_with("_77.png"));
    assert!(!g.needs_decode(&a, Some(10), true));
    let second = g.generate_thumbnail(&mut store, &a, &facts(Some(10), true, None, false)).unwrap().unwrap();
    assert_eq!(first, second);
    assert_eq!(store.get_asset(id).unwrap().thumbnail_path, Some(first));
}

#[test]
fn other_types_get_no_thumbnail() {
    let mut store = Store::new();
    let id = texture(&mut store, "clip.wav");
    let g = PreviewGenerator::new("/cache".to_string(), 128);
    let a = store.get_asset(id).unwrap();
    assert_eq!(g.generate_thumbnail(&mut store, &a, &facts(Some(1), false, Some((1, 1)), true)).unwrap(), None);
    let id = texture(&mut store, "photo.exr");
    let a = store.get_asset(id).unwrap();
    assert_eq!(g.generate_thumbnail(&mut store, &a, &facts(Some(1), false, Some((1, 1)), true)).unwrap(), None);
}

#[test]
fn batch_counts_thumbnails() {
    let mut store = Store::new();
    texture(&mut store, "a.png");
    texture(&mut store, "b.png");
    let id_c = texture(&mut store, "c.png");
    let pid = store.get_asset(id_c).unwrap().project_id;
    let g = PreviewGenerator::new("/cache".to_string(), 128);
    let all = vec![facts(Some(1), false, Some((4, 4)), true), facts(Some(1), false, None, false)];
    let made = g.generate_thumbnails_for_project(&mut store, pid, 25, &all);
    assert_eq!(made, 2);
    assert_eq!(store.get_assets_needing_thumbnails(pid, 25).len(), 1);
}

#[test]
fn material_main_texture_and_tint() {
    let body = b"m_TexEnvs:\n- _BumpMap:\n    m_Texture: {fileID: 0}\n- _BaseMap:\n    m_Texture: {fileID: 0}\n- _EmissionMap:\n    m_Texture: {fileID: 0}\n";
    let info = parse_material(body);
    assert_eq!(main_texture(&info), Some(1));
    assert_eq!(placeholder_tint(&info), (200, 100, 140));
    let empty = MaterialInfo { shader_name: None, textures: Vec::new() };
    assert_eq!(main_texture(&empty), None);
    assert_eq!(placeholder_tint(&empty), (100, 100, 120));
}

#[test]
fn material_reuses_texture_by_guid() {
    let mut store = Store::new();
    let pid = store.get_or_create_project(&"/p".to_string(), &"p".to_string()).unwrap().id;
    let guid = "0123456789abcdef0123456789abcdef";
    let tex = store
        .upsert_asset(build_asset_row(
            pid,
            FileFacts {
                absolute_path: "/p/t.png".to_string(),
                relative_path: "t.png".to_string(),
                file_name: "t.png".to_string(),
                extension: "png".to_string(),
                size_bytes: 1,
                modified_time: 1,
                sidecar: Some(format!("guid: {}\n", guid).into_bytes()),
                body: None,
            },
        ))
        .unwrap();
    let body = format!("- _MainTex:\n    m_Texture: {{fileID: 1, guid: {}, type: 3}}\n", guid);
    let mat = store
        .upsert_asset(build_asset_row(
            pid,
            FileFacts {
                absolute_path: "/p/m.mat".to_string(),
                relative_path: "m.mat".to_string(),
                file_name: "m.mat".to_string(),
                extension: "mat".to_string(),
                size_bytes: 1,
                modified_time: 5,
                sidecar: None,
                body: Some(body.clone().into_bytes()),
            },
        ))
        .unwrap();
    let info = parse_material(body.as_bytes());
    let m = store.get_asset(mat).unwrap();
    assert_eq!(material_texture_source(&store, &m, &info).unwrap().id, tex);
    let g = PreviewGenerator::new("/c".to_string(), 64);
    let f = SourceFacts { file_size: Some(1), cached: false, decoded: None, saved: false, material: Some(info), texture_copied: true };
    let path = g.generate_thumbnail(&mut store, &m, &f).unwrap().unwrap();
    assert!(path.starts_with("/c/mat_"));
    assert!(path.ends_with("_5.png"));
    let none = SourceFacts { file_size: Some(1), cached: false, decoded: None, saved: false, material: Some(parse_material(body.as_bytes())), texture_copied: false };
    assert_eq!(g.generate_thumbnail(&mut store, &m, &none).unwrap(), None);
    let bare = SourceFacts { file_size: Some(1), cached: false, decoded: None, saved: true, material: Some(parse_material(b"Material:\n")), texture_copied: false };
    let placeholder = g.generate_thumbnail(&mut store, &m, &bare).unwrap().unwrap();
    assert_eq!(placeholder, path);
}

#[test]
fn data_urls() {
    assert_eq!(data_url("image/png", b"abc"), "data:image/png;base64,YWJj");
    assert_eq!(data_url("image/gif", b""), "data:image/gif;base64,");
    assert_eq!(thumbnail_data(&Some("/c/x.jpg".to_string()), Some(b"ab")), Some("data:image/jpeg;base64,YWI=".to_string()));
    assert_eq!(thumbnail_data(&Some("/c/x.png".to_string()), Some(b"a")), Some("data:image/png;base64,YQ==".to_string()));
    assert_eq!(thumbnail_data(&Some("UNSUPPORTED".to_string()), None), Some("UNSUPPORTED".to_string()));
    assert_eq!(thumbnail_data(&Some("/c/x.png".to_string()), None), None);
    assert_eq!(thumbnail_data(&None, Some(b"a")), None);
}

#[test]
fn scan_phases_in_order() {
    let mut m = ScanMachine::new();
    assert_eq!(m.started().phase, ScanPhase::Counting);
    assert_eq!(m.step(ScanEvent::Counted(5)).unwrap().scanned, 5);
    assert_eq!(m.step(ScanEvent::Counted(3)).unwrap().scanned, 5);
    let p = m.step(ScanEvent::CountingDone(10)).unwrap();
    assert_eq!((p.phase, p.total), (ScanPhase::Indexing, Some(10)));
    let p = m.step(ScanEvent::BatchIndexed(10, "/p/a.png".to_string())).unwrap();
    assert_eq!(p.current_path, "/p/a.png");
    let stats = ScanStats { total_files: 10, unchanged_skipped: 10, new_or_changed: 0 };
    let p = m.step(ScanEvent::IndexingDone(10, stats)).unwrap();
    assert_eq!((p.phase, p.skipped, p.changed), (ScanPhase::Dependencies, Some(10), Some(0)));
    let p = m.step(ScanEvent::DepsProgress(3, 10)).unwrap();
    assert_eq!((p.scanned, p.total, p.skipped), (3, Some(10), Some(10)));
    let p = m.step(ScanEvent::DepsDone).unwrap();
    assert_eq!((p.phase, p.scanned, p.total, p.skipped, p.changed), (ScanPhase::Complete, 10, Some(10), Some(10), Some(0)));
    assert!(m.step(ScanEvent::Counted(1)).is_none());
}

#[test]
fn cancel_in_each_phase() {
    for steps in 0..3 {
        let mut m = ScanMachine::new();
        if steps >= 1 {
            m.step(ScanEvent::CountingDone(4));
        }
        if steps >= 2 {
            m.step(ScanEvent::IndexingDone(4, ScanStats { total_files: 4, unchanged_skipped: 1, new_or_changed: 3 }));
        }
        let p = m.cancel().unwrap();
        assert_eq!(p.phase, ScanPhase::Cancelled);
        assert_eq!(m.phase, ScanPhase::Cancelled);
        assert!(m.step(ScanEvent::DepsDone).is_none());
        assert!(m.cancel().is_none());
        let mut again = ScanMachine::new();
        again.step(ScanEvent::CountingDone(0));
        again.step(ScanEvent::IndexingDone(0, ScanStats::new()));
        assert_eq!(again.step(ScanEvent::DepsDone).unwrap().phase, ScanPhase::Complete);
    }
}

#[test]
fn empty_root_scan_completes_with_zero() {
    let mut m = ScanMachine::new();
    m.step(ScanEvent::Counted(0));
    let p = m.step(ScanEvent::CountingDone(0)).unwrap();
    assert_eq!(p.total, Some(0));
    m.step(ScanEvent::IndexingDone(0, ScanStats::new()));
    let p = m.step(ScanEvent::DepsDone).unwrap();
    assert_eq!((p.phase, p.scanned, p.total), (ScanPhase::Complete, 0, Some(0)));
}

#[test]
fn failed_batch_ends_in_error() {
    let mut m = ScanMachine::new();
    m.step(ScanEvent::CountingDone(50));
    assert!(m.step(ScanEvent::BatchFailed).is_none());
    m.step(ScanEvent::BatchIndexed(50, "/p/z.png".to_string()));
    m.step(ScanEvent::IndexingDone(50, ScanStats { total_files: 50, unchanged_skipped: 0, new_or_changed: 50 }));
    assert_eq!(m.step(ScanEvent::DepsDone).unwrap().phase, ScanPhase::Error);
}

#[test]
fn fault_ends_in_error() {
    let mut m = ScanMachine::new();
    m.step(ScanEvent::CountingDone(2));
    assert_eq!(m.step(ScanEvent::Fault).unwrap().phase, ScanPhase::Error);
    assert!(m.cancel().is_none());
}

#[test]
fn new_scan_cancels_running_one() {
    let mut slot = ScanSlot::new();
    assert!(!slot.request_start());
    slot.start();
    assert!(slot.running);
    assert!(slot.request_start());
    assert!(slot.cancel_requested);
    slot.start();
    assert!(slot.running && !slot.cancel_requested);
    slot.finish();
    assert!(!slot.running);
}

#[test]
fn refresh_throttle_and_batches() {
    assert!(!should_refresh(1000, 1200));
    assert!(should_refresh(1000, 1201));
    assert!(!should_refresh(1000, 900));
    let (p, done) = after_thumbnail_batch(5, 3, 20);
    assert_eq!((p.generated, p.total, p.phase, done), (8, 20, ThumbnailPhase::Generating, false));
    let (p, stop) = before_thumbnail_batch(true, 8, 20);
    assert_eq!((p.phase, stop), (ThumbnailPhase::Cancelled, true));
    let (p, done) = after_thumbnail_batch(8, 0, 20);
    assert_eq!((p.generated, p.phase, done), (8, ThumbnailPhase::Complete, true));
}
