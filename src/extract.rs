//! Per-file metadata: classification by extension, sidecar identity,
//! outbound references, and material bodies.
use vstd::prelude::*;
use crate::model::{AssetType, DepKind, Reference, ReferenceView, refs_view};
use crate::scan_text::{ascii_string, ascii_text, blank, hex_run, is_hex, is_space, lit_at, lit_at_exec, skip_blanks, skip_spaces, skip_while, skip_word, space, word};
use crate::text::{chars_of, fold_all, fold_text, opt_view};

verus! {

/// Extensions and the asset type each one gives, lower case.
pub open spec fn extension_table() -> Seq<(Seq<char>, AssetType)> {
    seq![
        ("png"@, AssetType::Texture), ("jpg"@, AssetType::Texture), ("jpeg"@, AssetType::Texture),
        ("tga"@, AssetType::Texture), ("bmp"@, AssetType::Texture), ("gif"@, AssetType::Texture),
        ("psd"@, AssetType::Texture), ("tif"@, AssetType::Texture), ("tiff"@, AssetType::Texture),
        ("exr"@, AssetType::Texture), ("hdr"@, AssetType::Texture),
        ("mat"@, AssetType::Material),
        ("fbx"@, AssetType::Model), ("obj"@, AssetType::Model), ("dae"@, AssetType::Model),
        ("gltf"@, AssetType::Model), ("glb"@, AssetType::Model), ("blend"@, AssetType::Model),
        ("3ds"@, AssetType::Model),
        ("cs"@, AssetType::Script), ("js"@, AssetType::Script),
        ("shader"@, AssetType::Shader), ("cginc"@, AssetType::Shader), ("hlsl"@, AssetType::Shader),
        ("glsl"@, AssetType::Shader), ("compute"@, AssetType::Shader), ("shadergraph"@, AssetType::Shader),
        ("prefab"@, AssetType::Prefab),
        ("unity"@, AssetType::Scene),
        ("wav"@, AssetType::Audio), ("mp3"@, AssetType::Audio), ("ogg"@, AssetType::Audio),
        ("aif"@, AssetType::Audio), ("aiff"@, AssetType::Audio), ("flac"@, AssetType::Audio),
        ("anim"@, AssetType::Animation), ("controller"@, AssetType::Animation),
        ("overridecontroller"@, AssetType::Animation),
        ("ttf"@, AssetType::Font), ("otf"@, AssetType::Font), ("fontsettings"@, AssetType::Font),
        ("asset"@, AssetType::Config), ("json"@, AssetType::Config), ("xml"@, AssetType::Config),
        ("yaml"@, AssetType::Config), ("yml"@, AssetType::Config), ("txt"@, AssetType::Config),
    ]
}

/// The type of the first entry of `t` whose extension is `e`; `Other` when none is.
pub open spec fn lookup_type(t: Seq<(Seq<char>, AssetType)>, e: Seq<char>) -> AssetType
    decreases t.len(),
{
    if t.len() == 0 {
        AssetType::Other
    } else if t[0].0 == e {
        t[0].1
    } else {
        lookup_type(t.drop_first(), e)
    }
}

/// The asset type of a file extension, compared without ASCII case.
pub open spec fn type_of_extension(ext: Seq<char>) -> AssetType {
    lookup_type(extension_table(), fold_text(ext))
}

fn same_chars(a: &Vec<char>, b: &Vec<char>) -> (r: bool)
    ensures
        r == (a@ == b@),
{
    if a.len() != b.len() {
        return false;
    }
    let mut i: usize = 0;
    while i < a.len()
        invariant
            a@.len() == b@.len(),
            i <= a@.len(),
            forall|k: int| 0 <= k < i ==> a@[k] == b@[k],
        decreases a@.len() - i,
    {
        if a[i] != b[i] {
            return false;
        }
        i = i + 1;
    }
    assert(a@ =~= b@);
    true
}

/// Classifies a file by its extension (without the dot); total.
pub fn classify_extension(ext: &str) -> (r: AssetType)
    ensures
        r == type_of_extension(ext@),
{
    let table: Vec<(&str, AssetType)> = vec![
        ("png", AssetType::Texture), ("jpg", AssetType::Texture), ("jpeg", AssetType::Texture),
        ("tga", AssetType::Texture), ("bmp", AssetType::Texture), ("gif", AssetType::Texture),
        ("psd", AssetType::Texture), ("tif", AssetType::Texture), ("tiff", AssetType::Texture),
        ("exr", AssetType::Texture), ("hdr", AssetType::Texture),
        ("mat", AssetType::Material),
        ("fbx", AssetType::Model), ("obj", AssetType::Model), ("dae", AssetType::Model),
        ("gltf", AssetType::Model), ("glb", AssetType::Model), ("blend", AssetType::Model),
        ("3ds", AssetType::Model),
        ("cs", AssetType::Script), ("js", AssetType::Script),
        ("shader", AssetType::Shader), ("cginc", AssetType::Shader), ("hlsl", AssetType::Shader),
        ("glsl", AssetType::Shader), ("compute", AssetType::Shader), ("shadergraph", AssetType::Shader),
        ("prefab", AssetType::Prefab),
        ("unity", AssetType::Scene),
        ("wav", AssetType::Audio), ("mp3", AssetType::Audio), ("ogg", AssetType::Audio),
        ("aif", AssetType::Audio), ("aiff", AssetType::Audio), ("flac", AssetType::Audio),
        ("anim", AssetType::Animation), ("controller", AssetType::Animation),
        ("overridecontroller", AssetType::Animation),
        ("ttf", AssetType::Font), ("otf", AssetType::Font), ("fontsettings", AssetType::Font),
        ("asset", AssetType::Config), ("json", AssetType::Config), ("xml", AssetType::Config),
        ("yaml", AssetType::Config), ("yml", AssetType::Config), ("txt", AssetType::Config),
    ];
    let ghost tv = table@.map_values(|p: (&str, AssetType)| (p.0@, p.1));
    assert(tv =~= extension_table());
    let e = fold_all(&chars_of(ext));
    assert(tv.subrange(0, tv.len() as int) =~= tv);
    let mut i: usize = 0;
    while i < table.len()
        invariant
            tv == table@.map_values(|p: (&str, AssetType)| (p.0@, p.1)),
            tv == extension_table(),
            e@ == fold_text(ext@),
            i <= table@.len(),
            lookup_type(tv.subrange(i as int, tv.len() as int), e@) == lookup_type(tv, e@),
        decreases table@.len() - i,
    {
        let (name, t) = table[i];
        let nc = chars_of(name);
        let ghost rest = tv.subrange(i as int, tv.len() as int);
        assert(rest[0] == (nc@, t));
        assert(rest.drop_first() =~= tv.subrange(i as int + 1, tv.len() as int));
        if same_chars(&nc, &e) {
            assert(lookup_type(rest, e@) == t);
            return t;
        }
        i = i + 1;
    }
    AssetType::Other
}

/// The key that introduces a guid.
pub open spec fn guid_key() -> Seq<char> {
    seq!['g', 'u', 'i', 'd', ':']
}

/// The start of a slot key.
pub open spec fn dash_key() -> Seq<char> {
    seq!['-', ' ']
}

/// The separator between records.
pub open spec fn sep_key() -> Seq<char> {
    seq!['-', '-', '-']
}

/// Position of the 32 hexadecimal digits of a `guid:` key that starts at `i`.
pub open spec fn guid_at(b: Seq<u8>, i: int) -> Option<int> {
    if lit_at(b, i, guid_key()) {
        let h = skip_while(b, i + 5, blank());
        if h + 32 <= b.len() && forall|k: int| h <= k < h + 32 ==> is_hex(b[k]) {
            Some(h)
        } else {
            None
        }
    } else {
        None
    }
}

/// The first guid at or after position `i`.
pub open spec fn first_guid(b: Seq<u8>, i: int) -> Option<Seq<char>>
    decreases b.len() - i,
{
    if i < 0 || i >= b.len() {
        None
    } else {
        match guid_at(b, i) {
            Some(h) => Some(ascii_text(b.subrange(h, h + 32))),
            None => first_guid(b, i + 1),
        }
    }
}

fn guid_start(b: &[u8], i: usize, key: &Vec<char>) -> (r: Option<usize>)
    requires
        key@ == guid_key(),
        i <= b@.len(),
    ensures
        match r {
            Some(h) => guid_at(b@, i as int) == Some(h as int) && h + 32 <= b@.len() && h >= i + 5,
            None => guid_at(b@, i as int) is None,
        },
{
    if !lit_at_exec(b, i, key) {
        return None;
    }
    assert(guid_key().len() == 5);
    if b.len() - i < 5 {
        return None;
    }
    let h = skip_blanks(b, i + 5);
    if hex_run(b, h, 32) {
        Some(h)
    } else {
        None
    }
}

/// The guid that a sidecar file declares: the first `guid:` key followed by
/// 32 lower-case hexadecimal digits.
pub fn parse_sidecar_guid(b: &[u8]) -> (r: Option<String>)
    ensures
        opt_view(r) == first_guid(b@, 0),
{
    let key = chars_of("guid:");
    proof {
        reveal_strlit("guid:");
    }
    assert(key@ =~= guid_key());
    let mut i: usize = 0;
    while i < b.len()
        invariant
            key@ == guid_key(),
            i <= b@.len(),
            first_guid(b@, i as int) == first_guid(b@, 0),
        decreases b@.len() - i,
    {
        match guid_start(b, i, &key) {
            Some(h) => {
                return Some(ascii_string(b, h, h + 32));
            },
            None => {},
        }
        i = i + 1;
    }
    None
}

/// The slot key `- <word>:` at position `i`: the end of the word and the
/// position after the colon.
pub open spec fn slot_at(b: Seq<u8>, i: int) -> Option<(int, int)> {
    if lit_at(b, i, dash_key()) {
        let w = skip_while(b, i + 2, word());
        if w > i + 2 && w < b.len() && b[w] == 58 {
            Some((w, w + 1))
        } else {
            None
        }
    } else {
        None
    }
}

/// The guid references from position `i` on, under the slot key in force.
/// A record separator `---` ends the slot's scope.
pub open spec fn refs_from(b: Seq<u8>, i: int, slot: Option<Seq<char>>) -> Seq<ReferenceView>
    decreases b.len() - i,
{
    if i < 0 || i >= b.len() {
        Seq::empty()
    } else if lit_at(b, i, sep_key()) {
        refs_from(b, i + 3, None)
    } else {
        match slot_at(b, i) {
            Some((w, next)) => refs_from(b, next, Some(ascii_text(b.subrange(i + 2, w)))),
            None => match guid_at(b, i) {
                Some(h) => if h > i {
                    seq![
                        ReferenceView { kind: DepKind::Guid, target: ascii_text(b.subrange(h, h + 32)), slot_name: slot },
                    ] + refs_from(b, h + 32, slot)
                } else {
                    Seq::empty()
                },
                None => refs_from(b, i + 1, slot),
            },
        }
    }
}

fn slot_start(b: &[u8], i: usize, dash: &Vec<char>) -> (r: Option<usize>)
    requires
        dash@ == dash_key(),
        i <= b@.len(),
    ensures
        match r {
            Some(w) => slot_at(b@, i as int) == Some((w as int, w as int + 1)) && w > i + 2 && w < b@.len(),
            None => slot_at(b@, i as int) is None,
        },
{
    if !lit_at_exec(b, i, dash) {
        return None;
    }
    assert(dash_key().len() == 2);
    if b.len() - i < 2 {
        return None;
    }
    let w = skip_word(b, i + 2);
    if w > i + 2 && w < b.len() && b[w] == 58 {
        Some(w)
    } else {
        None
    }
}

/// The guid references of a text asset, each with the slot key above it.
pub fn extract_references(b: &[u8]) -> (r: Vec<Reference>)
    ensures
        refs_view(r@) == refs_from(b@, 0, None),
{
    let key = chars_of("guid:");
    let dash = chars_of("- ");
    let sep = chars_of("---");
    proof {
        reveal_strlit("guid:");
        reveal_strlit("- ");
        reveal_strlit("---");
    }
    assert(key@ =~= guid_key());
    assert(dash@ =~= dash_key());
    assert(sep@ =~= sep_key());
    let mut out: Vec<Reference> = Vec::new();
    let mut slot: Option<String> = None;
    let mut i: usize = 0;
    while i < b.len()
        invariant
            key@ == guid_key(),
            dash@ == dash_key(),
            sep@ == sep_key(),
            i <= b@.len(),
            refs_view(out@) + refs_from(b@, i as int, opt_view(slot)) == refs_from(b@, 0, None),
        decreases b@.len() - i,
    {
        let ghost before = refs_view(out@);
        if lit_at_exec(b, i, &sep) {
            assert(sep_key().len() == 3);
            slot = None;
            i = i + 3;
        } else {
            match slot_start(b, i, &dash) {
                Some(w) => {
                    slot = Some(ascii_string(b, i + 2, w));
                    i = w + 1;
                },
                None => match guid_start(b, i, &key) {
                    Some(h) => {
                        let r = Reference {
                            kind: DepKind::Guid,
                            target: ascii_string(b, h, h + 32),
                            slot_name: slot.clone(),
                        };
                        out.push(r);
                        assert(refs_view(out@) =~= before.push(out@.last()@));
                        i = h + 32;
                    },
                    None => {
                        i = i + 1;
                    },
                },
            }
        }
    }
    assert(refs_view(out@) + Seq::<ReferenceView>::empty() =~= refs_view(out@));
    out
}


/// A texture slot of a material.
#[derive(Debug)]
pub struct MaterialTexture {
    pub slot_name: String,
    pub texture_guid: Option<String>,
    pub texture_path: Option<String>,
}

pub ghost struct MaterialTextureView {
    pub slot_name: Seq<char>,
    pub texture_guid: Option<Seq<char>>,
    pub texture_path: Option<Seq<char>>,
}

impl View for MaterialTexture {
    type V = MaterialTextureView;

    open spec fn view(&self) -> MaterialTextureView {
        MaterialTextureView {
            slot_name: self.slot_name@,
            texture_guid: opt_view(self.texture_guid),
            texture_path: opt_view(self.texture_path),
        }
    }
}

/// Shader and texture slots of a material.
#[derive(Debug)]
pub struct MaterialInfo {
    pub shader_name: Option<String>,
    pub textures: Vec<MaterialTexture>,
}

pub ghost struct MaterialInfoView {
    pub shader_name: Option<Seq<char>>,
    pub textures: Seq<MaterialTextureView>,
}

/// The models of a list of texture slots.
pub open spec fn textures_view(v: Seq<MaterialTexture>) -> Seq<MaterialTextureView> {
    v.map_values(|t: MaterialTexture| t@)
}

impl View for MaterialInfo {
    type V = MaterialInfoView;

    open spec fn view(&self) -> MaterialInfoView {
        MaterialInfoView { shader_name: opt_view(self.shader_name), textures: textures_view(self.textures@) }
    }
}

pub open spec fn tex_key() -> Seq<char> {
    seq!['m', '_', 'T', 'e', 'x', 't', 'u', 'r', 'e', ':']
}

pub open spec fn shader_key() -> Seq<char> {
    seq!['m', '_', 'S', 'h', 'a', 'd', 'e', 'r', ':']
}

pub open spec fn name_key() -> Seq<char> {
    seq!['m', '_', 'N', 'a', 'm', 'e', ':']
}

pub open spec fn not_close() -> spec_fn(u8) -> bool {
    |c: u8| c != 125
}

pub open spec fn not_eol() -> spec_fn(u8) -> bool {
    |c: u8| c != 10 && c != 13
}

/// The first position at or after `i` where `key` stands.
pub open spec fn first_pos(b: Seq<u8>, i: int, key: Seq<char>) -> Option<int>
    decreases b.len() - i,
{
    if i < 0 || i >= b.len() {
        None
    } else if lit_at(b, i, key) {
        Some(i)
    } else {
        first_pos(b, i + 1, key)
    }
}

/// The start of the first guid in `b[i..end]`.
pub open spec fn first_guid_in(b: Seq<u8>, i: int, end: int) -> Option<int>
    decreases end - i,
{
    if i < 0 || i >= end {
        None
    } else {
        match guid_at(b, i) {
            Some(h) => if h + 32 <= end {
                Some(h)
            } else {
                first_guid_in(b, i + 1, end)
            },
            None => first_guid_in(b, i + 1, end),
        }
    }
}

/// A texture record at `i`: a slot key, then after white space `m_Texture:`
/// and `{`. Gives the end of the slot word, the first guid before the closing
/// `}`, and the position of that `}`.
pub open spec fn tex_at(b: Seq<u8>, i: int) -> Option<(int, Option<int>, int)> {
    match slot_at(b, i) {
        None => None,
        Some((w, after)) => {
            let k = skip_while(b, after, space());
            if lit_at(b, k, tex_key()) {
                let j = skip_while(b, k + 10, blank());
                if j < b.len() && b[j] == 123 {
                    let close = skip_while(b, j + 1, not_close());
                    Some((w, first_guid_in(b, j + 1, close), close))
                } else {
                    None
                }
            } else {
                None
            }
        },
    }
}

/// Some slot of `acc` is named `slot`.
pub open spec fn has_slot(acc: Seq<MaterialTextureView>, slot: Seq<char>) -> bool {
    exists|k: int| 0 <= k < acc.len() && acc[k].slot_name == slot
}

/// The texture slots from position `i` on, after those in `acc`. The first
/// pass (`with_guid`) takes the slots that have a guid; the second takes, with
/// no guid, each slot whose name is not listed yet.
pub open spec fn textures_from(b: Seq<u8>, i: int, acc: Seq<MaterialTextureView>, with_guid: bool) -> Seq<MaterialTextureView>
    decreases b.len() - i,
{
    if i < 0 || i >= b.len() {
        acc
    } else {
        match tex_at(b, i) {
            Some((w, g, next)) => if i < next <= b.len() {
                let slot = ascii_text(b.subrange(i + 2, w));
                let acc2 = if with_guid {
                    match g {
                        Some(h) => acc.push(MaterialTextureView {
                            slot_name: slot,
                            texture_guid: Some(ascii_text(b.subrange(h, h + 32))),
                            texture_path: None,
                        }),
                        None => acc,
                    }
                } else if has_slot(acc, slot) {
                    acc
                } else {
                    acc.push(MaterialTextureView { slot_name: slot, texture_guid: None, texture_path: None })
                };
                textures_from(b, next, acc2, with_guid)
            } else {
                acc
            },
            None => textures_from(b, i + 1, acc, with_guid),
        }
    }
}

/// The end of `b[s..e]` without its trailing blanks.
pub open spec fn trim_end(b: Seq<u8>, s: int, e: int) -> int
    decreases e - s,
{
    if e > s && is_space(b[e - 1]) {
        trim_end(b, s, e - 1)
    } else {
        e
    }
}

/// The shader name: present only when the body has an `m_Shader:` key, it is
/// the rest of the line after the first `m_Name:` key, trimmed.
pub open spec fn shader_name_of(b: Seq<u8>) -> Option<Seq<char>> {
    if first_pos(b, 0, shader_key()) is Some {
        match first_pos(b, 0, name_key()) {
            Some(n) => {
                let s = skip_while(b, n + 7, blank());
                let e = trim_end(b, s, skip_while(b, s, not_eol()));
                if e > s {
                    Some(ascii_text(b.subrange(s, e)))
                } else {
                    None
                }
            },
            None => None,
        }
    } else {
        None
    }
}

/// What a material body declares.
pub open spec fn material_of(b: Seq<u8>) -> MaterialInfoView {
    MaterialInfoView {
        shader_name: shader_name_of(b),
        textures: textures_from(b, 0, textures_from(b, 0, Seq::empty(), true), false),
    }
}

/// A position, as an integer.
pub open spec fn opt_pos(p: Option<usize>) -> Option<int> {
    match p {
        Some(h) => Some(h as int),
        None => None,
    }
}

pub fn first_pos_exec(b: &[u8], key: &Vec<char>) -> (r: Option<usize>)
    ensures
        match r {
            Some(p) => first_pos(b@, 0, key@) == Some(p as int) && p + key@.len() <= b@.len(),
            None => first_pos(b@, 0, key@) is None,
        },
{
    let mut i: usize = 0;
    while i < b.len()
        invariant
            i <= b@.len(),
            first_pos(b@, i as int, key@) == first_pos(b@, 0, key@),
        decreases b@.len() - i,
    {
        if lit_at_exec(b, i, key) {
            return Some(i);
        }
        i = i + 1;
    }
    None
}

fn skip_until(b: &[u8], i: usize, stop: u8) -> (r: usize)
    requires
        i <= b@.len(),
    ensures
        i <= r <= b@.len(),
        stop == 125 ==> r == skip_while(b@, i as int, not_close()),
{
    let mut k: usize = i;
    while k < b.len() && b[k] != stop
        invariant
            i <= k <= b@.len(),
            stop == 125 ==> skip_while(b@, k as int, not_close()) == skip_while(b@, i as int, not_close()),
        decreases b@.len() - k,
    {
        k = k + 1;
    }
    k
}

fn line_stop(b: &[u8], i: usize) -> (r: usize)
    requires
        i <= b@.len(),
    ensures
        i <= r <= b@.len(),
        r == skip_while(b@, i as int, not_eol()),
{
    let mut k: usize = i;
    while k < b.len() && b[k] != 10 && b[k] != 13
        invariant
            i <= k <= b@.len(),
            skip_while(b@, k as int, not_eol()) == skip_while(b@, i as int, not_eol()),
        decreases b@.len() - k,
    {
        k = k + 1;
    }
    k
}

fn trim_end_exec(b: &[u8], s: usize, e: usize) -> (r: usize)
    requires
        s <= e <= b@.len(),
    ensures
        s <= r <= e,
        r == trim_end(b@, s as int, e as int),
{
    let mut k: usize = e;
    while k > s && (b[k - 1] == 32 || b[k - 1] == 9 || b[k - 1] == 13 || b[k - 1] == 10)
        invariant
            s <= k <= e <= b@.len(),
            trim_end(b@, s as int, k as int) == trim_end(b@, s as int, e as int),
        decreases k - s,
    {
        k = k - 1;
    }
    k
}

fn guid_within(b: &[u8], i: usize, end: usize, key: &Vec<char>) -> (r: Option<usize>)
    requires
        key@ == guid_key(),
        i <= end <= b@.len(),
    ensures
        opt_pos(r) == first_guid_in(b@, i as int, end as int),
        r matches Some(h) ==> h + 32 <= end,
{
    let blen = b.len();
    let mut k: usize = i;
    while k < end
        invariant
            blen == b@.len(),
            key@ == guid_key(),
            i <= k <= end <= b@.len(),
            first_guid_in(b@, k as int, end as int) == first_guid_in(b@, i as int, end as int),
        decreases end - k,
    {
        match guid_start(b, k, key) {
            Some(h) => {
                if h + 32 <= end {
                    return Some(h);
                }
            },
            None => {},
        }
        k = k + 1;
    }
    None
}

fn tex_record(b: &[u8], i: usize, dash: &Vec<char>, tkey: &Vec<char>, key: &Vec<char>) -> (r: Option<(usize, Option<usize>, usize)>)
    requires
        dash@ == dash_key(),
        tkey@ == tex_key(),
        key@ == guid_key(),
        i <= b@.len(),
    ensures
        match r {
            Some((w, g, next)) => tex_at(b@, i as int) == Some((w as int, opt_pos(g), next as int))
                && i + 2 < w && w <= b@.len() && next > i && next <= b@.len()
                && (g matches Some(h) ==> h + 32 <= b@.len()),
            None => tex_at(b@, i as int) is None,
        },
{
    let blen = b.len();
    assert(blen == b@.len());
    let w = match slot_start(b, i, dash) {
        Some(w) => w,
        None => return None,
    };
    let k = skip_spaces(b, w + 1);
    if !lit_at_exec(b, k, tkey) {
        return None;
    }
    assert(tex_key().len() == 10);
    let j = skip_blanks(b, k + 10);
    if j < b.len() && b[j] == 123 {
        let close = skip_until(b, j + 1, 125);
        let g = guid_within(b, j + 1, close, key);
        Some((w, g, close))
    } else {
        None
    }
}

fn slot_named(acc: &Vec<MaterialTexture>, slot: &String) -> (r: bool)
    ensures
        r == has_slot(textures_view(acc@), slot@),
{
    let mut k: usize = 0;
    while k < acc.len()
        invariant
            k <= acc@.len(),
            forall|m: int| 0 <= m < k ==> acc@[m].slot_name@ != slot@,
        decreases acc@.len() - k,
    {
        if crate::text::same_text(&acc[k].slot_name, slot) {
            assert(textures_view(acc@)[k as int].slot_name == slot@);
            return true;
        }
        k = k + 1;
    }
    false
}

fn collect_textures(b: &[u8], acc: Vec<MaterialTexture>, with_guid: bool, dash: &Vec<char>, tkey: &Vec<char>, key: &Vec<char>) -> (r: Vec<MaterialTexture>)
    requires
        dash@ == dash_key(),
        tkey@ == tex_key(),
        key@ == guid_key(),
    ensures
        textures_view(r@) == textures_from(b@, 0, textures_view(acc@), with_guid),
{
    let ghost start = textures_view(acc@);
    let mut textures = acc;
    let mut i: usize = 0;
    while i < b.len()
        invariant
            key@ == guid_key(),
            dash@ == dash_key(),
            tkey@ == tex_key(),
            i <= b@.len(),
            textures_from(b@, i as int, textures_view(textures@), with_guid) == textures_from(b@, 0, start, with_guid),
        decreases b@.len() - i,
    {
        match tex_record(b, i, dash, tkey, key) {
            Some((w, g, next)) => {
                let slot = ascii_string(b, i + 2, w);
                let ghost before = textures_view(textures@);
                if with_guid {
                    match g {
                        Some(h) => {
                            let guid = ascii_string(b, h, h + 32);
                            textures.push(MaterialTexture { slot_name: slot, texture_guid: Some(guid), texture_path: None });
                            assert(textures_view(textures@) =~= before.push(textures@.last()@));
                        },
                        None => {},
                    }
                } else if !slot_named(&textures, &slot) {
                    textures.push(MaterialTexture { slot_name: slot, texture_guid: None, texture_path: None });
                    assert(textures_view(textures@) =~= before.push(textures@.last()@));
                }
                i = next;
            },
            None => {
                i = i + 1;
            },
        }
    }
    assert(textures_from(b@, i as int, textures_view(textures@), with_guid) == textures_view(textures@));
    textures
}

/// Reads the shader name and texture slots of a material body.
pub fn parse_material(b: &[u8]) -> (r: MaterialInfo)
    ensures
        r@ == material_of(b@),
{
    let key = chars_of("guid:");
    let dash = chars_of("- ");
    let tkey = chars_of("m_Texture:");
    let skey = chars_of("m_Shader:");
    let nkey = chars_of("m_Name:");
    proof {
        reveal_strlit("guid:");
        reveal_strlit("- ");
        reveal_strlit("m_Texture:");
        reveal_strlit("m_Shader:");
        reveal_strlit("m_Name:");
    }
    assert(key@ =~= guid_key());
    assert(dash@ =~= dash_key());
    assert(tkey@ =~= tex_key());
    assert(skey@ =~= shader_key());
    assert(nkey@ =~= name_key());
    let blen = b.len();
    assert(blen == b@.len());
    let shader_name = match first_pos_exec(b, &skey) {
        None => None,
        Some(_) => match first_pos_exec(b, &nkey) {
            None => None,
            Some(n) => {
                assert(name_key().len() == 7);
                let s = skip_blanks(b, n + 7);
                let e = trim_end_exec(b, s, line_stop(b, s));
                if e > s {
                    Some(ascii_string(b, s, e))
                } else {
                    None
                }
            },
        },
    };
    let none: Vec<MaterialTexture> = Vec::new();
    assert(textures_view(none@) =~= Seq::<MaterialTextureView>::empty());
    let with_guid = collect_textures(b, none, true, &dash, &tkey, &key);
    let textures = collect_textures(b, with_guid, false, &dash, &tkey, &key);
    MaterialInfo { shader_name, textures }
}
} // verus!
