use asset_library::extract::{classify_extension, extract_references, parse_material, parse_sidecar_guid};
use asset_library::library::Library;
use asset_library::mesh::{parse_dae_info, parse_fbx_info, parse_model_info, parse_obj_info};
use asset_library::model::{AssetType, DepKind, LibraryError};
use asset_library::scanner::{build_asset_row, entry_ignored, FileFacts};
use asset_library::settings::{project_name, LibrarySettings};

const G1: &str = "0123456789abcdef0123456789abcdef";
const G2: &str = "fedcba9876543210fedcba9876543210";

fn material_body() -> String {
    format!(
        "%YAML 1.1\n--- !u!21 &2100000\nMaterial:\n  m_Name: X\n  m_Shader: {{fileID: 46, guid: 0000000000000000f000000000000000, type: 0}}\n  m_SavedProperties:\n    m_TexEnvs:\n    - _Albedo:\n        m_Texture: {{fileID: 2800000, guid: {}, type: 3}}\n        m_Scale: {{x: 1, y: 1}}\n    - _Bump:\n        m_Texture: {{fileID: 2800000, guid: {}, type: 3}}\n    - _Detail:\n        m_Texture: {{fileID: 0}}\n",
        G1, G2
    )
}

#[test]
fn classification_by_extension() {
    assert_eq!(classify_extension("png"), AssetType::Texture);
    assert_eq!(classify_extension("PSD"), AssetType::Texture);
    assert_eq!(classify_extension("mat"), AssetType::Material);
    assert_eq!(classify_extension("FBX"), AssetType::Model);
    assert_eq!(classify_extension("cs"), AssetType::Script);
    assert_eq!(classify_extension("shader"), AssetType::Shader);
    assert_eq!(classify_extension("prefab"), AssetType::Prefab);
    assert_eq!(classify_extension("unity"), AssetType::Scene);
    assert_eq!(classify_extension("wav"), AssetType::Audio);
    assert_eq!(classify_extension("anim"), AssetType::Animation);
    assert_eq!(classify_extension("ttf"), AssetType::Font);
    assert_eq!(classify_extension("json"), AssetType::Config);
    assert_eq!(classify_extension("xyz"), AssetType::Other);
    assert_eq!(classify_extension(""), AssetType::Other);
}

#[test]
fn sidecar_guid() {
    let meta = format!("fileFormatVersion: 2\nguid: {}\nTextureImporter:\n", G1);
    assert_eq!(parse_sidecar_guid(meta.as_bytes()), Some(G1.to_string()));
    assert_eq!(parse_sidecar_guid(b"guid: 1234\n"), None);
    assert_eq!(parse_sidecar_guid(b""), None);
    assert_eq!(parse_sidecar_guid(b"GUID: 0123456789abcdef0123456789abcdef"), None);
}

#[test]
fn references_carry_their_slot() {
    let refs = extract_references(material_body().as_bytes());
    assert_eq!(refs.len(), 3);
    assert_eq!(refs[0].slot_name, None);
    assert_eq!(refs[1].target, G1);
    assert_eq!(refs[1].slot_name, Some("_Albedo".to_string()));
    assert_eq!(refs[2].target, G2);
    assert_eq!(refs[2].slot_name, Some("_Bump".to_string()));
    assert!(refs.iter().all(|r| r.kind == DepKind::Guid));
}

#[test]
fn record_separator_ends_slot() {
    let body = format!("- _MainTex:\n--- !u!1\n  m_Texture: {{guid: {}}}\n", G1);
    let refs = extract_references(body.as_bytes());
    assert_eq!(refs.len(), 1);
    assert_eq!(refs[0].slot_name, None);
}

#[test]
fn material_shader_and_slots() {
    let info = parse_material(material_body().as_bytes());
    assert_eq!(info.shader_name, Some("X".to_string()));
    assert_eq!(info.textures.len(), 3);
    assert_eq!(info.textures[0].slot_name, "_Albedo");
    assert_eq!(info.textures[0].texture_guid, Some(G1.to_string()));
    assert_eq!(info.textures[1].slot_name, "_Bump");
    assert_eq!(info.textures[1].texture_guid, Some(G2.to_string()));
    assert_eq!(info.textures[2].slot_name, "_Detail");
    assert_eq!(info.textures[2].texture_guid, None);
}

#[test]
fn slots_with_guid_come_first() {
    let body = format!(
        "- _Detail:\n    m_Texture: {{fileID: 0}}\n- _MainTex:\n    m_Texture: {{fileID: 1, guid: {}}}\n- _MainTex:\n    m_Texture: {{fileID: 0}}\n",
        G1
    );
    let info = parse_material(body.as_bytes());
    let slots: Vec<(String, Option<String>)> = info.textures.iter().map(|t| (t.slot_name.clone(), t.texture_guid.clone())).collect();
    assert_eq!(slots, vec![("_MainTex".to_string(), Some(G1.to_string())), ("_Detail".to_string(), None)]);
}

#[test]
fn material_without_shader_key() {
    let info = parse_material(b"Material:\n  m_Name: Plain\n");
    assert_eq!(info.shader_name, None);
    assert!(info.textures.is_empty());
}

#[test]
fn material_info_round_trip() {
    let mut lib = Library::new(LibrarySettings::default());
    let p = lib.set_project_root(&"/proj/Game".to_string(), true).unwrap();
    let body = material_body();
    let row = build_asset_row(
        p.id,
        FileFacts {
            absolute_path: "/proj/Game/m.mat".to_string(),
            relative_path: "m.mat".to_string(),
            file_name: "m.mat".to_string(),
            extension: "mat".to_string(),
            size_bytes: body.len() as u64,
            modified_time: 1,
            sidecar: None,
            body: Some(body.as_bytes().to_vec()),
        },
    );
    let id = lib.store.upsert_asset(row).unwrap();
    let info = lib.get_material_info(id, Some(body.as_bytes())).unwrap().unwrap();
    assert_eq!(info.shader_name, Some("X".to_string()));
    let slots: Vec<(String, Option<String>)> = info.textures.iter().map(|t| (t.slot_name.clone(), t.texture_guid.clone())).collect();
    assert_eq!(slots[0], ("_Albedo".to_string(), Some(G1.to_string())));
    assert_eq!(slots[1], ("_Bump".to_string(), Some(G2.to_string())));
    assert!(lib.get_model_info(id, Some(body.as_bytes())).unwrap().is_none());
    assert!(matches!(lib.get_material_info(77, None), Err(LibraryError::AssetNotFound(77))));
}

#[test]
fn project_root_must_be_directory() {
    let mut lib = Library::new(LibrarySettings::default());
    assert!(matches!(lib.set_project_root(&"/x/file.txt".to_string(), false), Err(LibraryError::InvalidProject)));
    assert!(lib.get_current_project().is_none());
    let p = lib.set_project_root(&"/work/MyGame/".to_string(), true).unwrap();
    assert_eq!(p.name, "MyGame");
    let again = lib.set_project_root(&"/work/MyGame/".to_string(), true).unwrap();
    assert_eq!(again.id, p.id);
    assert_eq!(lib.get_current_project().unwrap().id, p.id);
    assert_eq!(lib.get_settings().project_root, Some("/work/MyGame/".to_string()));
    lib.set_output_folder("/out".to_string());
    assert_eq!(lib.get_settings().output_folder, Some("/out".to_string()));
}

#[test]
fn project_names() {
    assert_eq!(project_name("/a/b/Game"), "Game");
    assert_eq!(project_name("/a/b/Game//"), "Game");
    assert_eq!(project_name("/"), "Unknown Folder");
    assert_eq!(project_name("Solo"), "Solo");
}

#[test]
fn default_ignores_prune_obj_and_library() {
    let patterns = LibrarySettings::default().ignore_patterns;
    assert!(entry_ignored("obj", true, &patterns));
    assert!(entry_ignored("Library", true, &patterns));
    assert!(!entry_ignored("Assets", true, &patterns));
    assert!(!entry_ignored("obj", false, &patterns));
    let none: Vec<String> = Vec::new();
    assert!(!entry_ignored("obj", true, &none));
    assert!(!entry_ignored("Library", true, &none));
    let files = vec!["notes.txt".to_string()];
    assert!(entry_ignored("notes.txt", false, &files));
    assert!(!entry_ignored("Notes.txt", false, &files));
}

#[test]
fn obj_counts() {
    let body = b"# cube\nv 0 0 0\nv 1 0 0\nv 1 1 0\n  v 0 1 0\nvn 0 0 1\nf 1 2 3 4\nf 1 2 3\nf 1 2\n";
    let info = parse_obj_info(body);
    assert_eq!(info.vertex_count, Some(4));
    assert_eq!(info.triangle_count, Some(3));
    assert_eq!(info.submesh_count, Some(1));
    assert!(info.has_normals);
    assert!(!info.has_uvs);
    let windows = parse_obj_info(b"v 1 2 3\r\nvt 0 0\r\n");
    assert_eq!(windows.vertex_count, Some(1));
    assert!(windows.has_uvs);
}

#[test]
fn fbx_ascii_and_binary() {
    let ascii = b"; FBX 7.4.0 project file\nGeometry: {\n  Vertices: *24 {\n  LayerElementNormal: 0 {\n}\n";
    let info = parse_fbx_info(ascii);
    assert_eq!(info.vertex_count, Some(8));
    assert!(info.has_normals);
    assert!(!info.has_uvs);
    let mut bin = b"Kaydara FBX Binary  \x00".to_vec();
    bin.extend_from_slice(b"VerticesPolygonVertexIndexNormalsUV");
    bin.resize(1000, 0);
    let b = parse_fbx_info(&bin);
    assert_eq!(b.vertex_count, None);
    assert_eq!(b.triangle_count, None);
    assert!(b.has_normals && b.has_uvs);
}

#[test]
fn dae_counts() {
    let body = br#"<library_geometries><source id="m-positions"><float_array id="m-positions-array" count="36">...</float_array></source>
<source id="n"><param name="NORMAL"/></source><triangles material="a" count="4"><p/></triangles><triangles count="2"></triangles></library_geometries>"#;
    let info = parse_dae_info(body);
    assert_eq!(info.vertex_count, Some(12));
    assert_eq!(info.triangle_count, Some(6));
    assert!(info.has_normals);
    assert!(!info.has_uvs);
}

#[test]
fn model_dispatch_by_extension() {
    assert!(parse_model_info("gltf", br#"{"meshes": []}"#).is_some());
    assert!(parse_model_info("gltf", b"{}").is_none());
    assert!(parse_model_info("glb", b"\x01").is_some());
    assert!(parse_model_info("glb", b"").is_none());
    let blend = parse_model_info("blend", b"").unwrap();
    assert!(blend.has_normals && blend.vertex_count.is_none());
    assert_eq!(parse_model_info("OBJ", b"v 0 0 0\n").unwrap().vertex_count, Some(1));
    assert!(parse_model_info("png", b"").is_none());
}
