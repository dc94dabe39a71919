//! Lightweight statistics of model files, read from their bytes.
use vstd::prelude::*;
use crate::extract::{first_pos, first_pos_exec};
use crate::scan_text::{digits_u64, digits_value, digit, is_space, lit_at, lit_at_exec, skip_digits, skip_while, not_newline, line_end};
use crate::text::chars_of;

verus! {

/// Counts and presence flags of a model; counts the format does not give are absent.
#[derive(Debug, Clone, Copy, PartialEq, Eq, Structural)]
pub struct ModelInfo {
    pub vertex_count: Option<u64>,
    pub triangle_count: Option<u64>,
    pub submesh_count: Option<u32>,
    pub has_normals: bool,
    pub has_uvs: bool,
}

/// White space inside a line.
pub open spec fn inline_space() -> spec_fn(u8) -> bool {
    |c: u8| c == 32 || c == 9 || c == 13
}

/// Not white space.
pub open spec fn not_space() -> spec_fn(u8) -> bool {
    |c: u8| !is_space(c)
}

/// Number of white-space separated tokens in `b[i..e]`.
pub open spec fn tokens(b: Seq<u8>, i: int, e: int) -> nat
    decreases e - i,
{
    if i >= e || i < 0 {
        0
    } else if is_space(b[i]) {
        tokens(b, i + 1, e)
    } else if i + 1 >= e || is_space(b[i + 1]) {
        1 + tokens(b, i + 1, e)
    } else {
        tokens(b, i + 1, e)
    }
}

/// Running totals of an OBJ file: vertices, triangles, normals seen, uvs seen.
pub ghost struct ObjTally {
    pub vertices: nat,
    pub triangles: nat,
    pub normals: bool,
    pub uvs: bool,
}

/// End of the text of the line that starts at `i`, without trailing white space.
pub open spec fn trimmed_end(b: Seq<u8>, s: int, e: int) -> int
    decreases e - s,
{
    if e > s && is_space(b[e - 1]) {
        trimmed_end(b, s, e - 1)
    } else {
        e
    }
}

/// The trimmed line `b[s..t]` starts with `key`.
pub open spec fn starts(b: Seq<u8>, s: int, t: int, key: Seq<char>) -> bool {
    s + key.len() <= t && lit_at(b, s, key)
}

/// The OBJ totals after the line that starts at `i` and those after it.
pub open spec fn obj_from(b: Seq<u8>, i: int, st: ObjTally) -> ObjTally
    decreases b.len() - i,
{
    if i < 0 || i >= b.len() {
        st
    } else {
        let e = skip_while(b, i, not_newline());
        let s = skip_while(b, i, inline_space());
        let t = trimmed_end(b, s, e);
        let next = if s <= e && e < b.len() { e + 1 } else { b.len() as int };
        let st2 = if s > e || s >= t {
            st
        } else if starts(b, s, t, seq!['v', ' ']) {
            ObjTally { vertices: st.vertices + 1, ..st }
        } else if starts(b, s, t, seq!['f', ' ']) {
            let n = tokens(b, s + 2, t);
            if n >= 3 { ObjTally { triangles: st.triangles + (n - 2) as nat, ..st } } else { st }
        } else if starts(b, s, t, seq!['v', 'n', ' ']) {
            ObjTally { normals: true, ..st }
        } else if starts(b, s, t, seq!['v', 't', ' ']) {
            ObjTally { uvs: true, ..st }
        } else {
            st
        };
        if next > i { obj_from(b, next, st2) } else { st2 }
    }
}

/// What an OBJ file gives: exact counts, one submesh.
pub open spec fn obj_info(b: Seq<u8>) -> ModelInfo {
    let st = obj_from(b, 0, ObjTally { vertices: 0, triangles: 0, normals: false, uvs: false });
    ModelInfo {
        vertex_count: Some(st.vertices as u64),
        triangle_count: Some(st.triangles as u64),
        submesh_count: Some(1),
        has_normals: st.normals,
        has_uvs: st.uvs,
    }
}

proof fn lemma_tokens_bound(b: Seq<u8>, i: int, e: int)
    requires
        0 <= i,
    ensures
        tokens(b, i, e) <= if e > i { e - i } else { 0 },
    decreases e - i,
{
    if i < e {
        lemma_tokens_bound(b, i + 1, e);
    }
}

proof fn lemma_skip_bounds(b: Seq<u8>, i: int, p: spec_fn(u8) -> bool)
    requires
        0 <= i <= b.len(),
    ensures
        i <= skip_while(b, i, p) <= b.len(),
    decreases b.len() - i,
{
    if i < b.len() && p(b[i]) {
        lemma_skip_bounds(b, i + 1, p);
    }
}

proof fn lemma_trim_bounds(b: Seq<u8>, s: int, e: int)
    ensures
        (s <= e ==> s <= trimmed_end(b, s, e) <= e),
    decreases e - s,
{
    if e > s && is_space(b[e - 1]) {
        lemma_trim_bounds(b, s, e - 1);
    }
}

fn skip_inline(b: &[u8], i: usize) -> (r: usize)
    requires
        i <= b@.len(),
    ensures
        i <= r <= b@.len(),
        r == skip_while(b@, i as int, inline_space()),
{
    let mut k: usize = i;
    while k < b.len() && (b[k] == 32 || b[k] == 9 || b[k] == 13)
        invariant
            i <= k <= b@.len(),
            skip_while(b@, k as int, inline_space()) == skip_while(b@, i as int, inline_space()),
        decreases b@.len() - k,
    {
        k = k + 1;
    }
    k
}

fn trimmed_end_exec(b: &[u8], s: usize, e: usize) -> (r: usize)
    requires
        s <= e <= b@.len(),
    ensures
        s <= r <= e,
        r == trimmed_end(b@, s as int, e as int),
{
    let mut k: usize = e;
    while k > s && (b[k - 1] == 32 || b[k - 1] == 9 || b[k - 1] == 13 || b[k - 1] == 10)
        invariant
            s <= k <= e <= b@.len(),
            trimmed_end(b@, s as int, k as int) == trimmed_end(b@, s as int, e as int),
        decreases k - s,
    {
        k = k - 1;
    }
    k
}

fn count_tokens(b: &[u8], i: usize, e: usize) -> (r: usize)
    requires
        i <= e <= b@.len(),
    ensures
        r == tokens(b@, i as int, e as int),
{
    let mut n: usize = 0;
    let mut k: usize = e;
    while k > i
        invariant
            i <= k <= e <= b@.len(),
            n == tokens(b@, k as int, e as int),
            n <= e - k,
        decreases k - i,
    {
        k = k - 1;
        let c = b[k];
        let sp = c == 32 || c == 9 || c == 13 || c == 10;
        if !sp && (k + 1 >= e || b[k + 1] == 32 || b[k + 1] == 9 || b[k + 1] == 13 || b[k + 1] == 10) {
            n = n + 1;
        }
        assert(n == tokens(b@, k as int, e as int)) by {
            lemma_tokens_suffix(b@, k as int, e as int);
        }
    }
    n
}

proof fn lemma_tokens_suffix(b: Seq<u8>, k: int, e: int)
    requires
        0 <= k < e <= b.len(),
    ensures
        tokens(b, k, e) == tokens(b, k + 1, e) + if !is_space(b[k]) && (k + 1 >= e || is_space(b[k + 1])) { 1nat } else { 0nat },
{
}


fn key_at(b: &[u8], s: usize, t: usize, key: &Vec<char>) -> (r: bool)
    requires
        s <= t <= b@.len(),
    ensures
        r == starts(b@, s as int, t as int, key@),
{
    key.len() <= t - s && lit_at_exec(b, s, key)
}

/// Reads vertex and triangle counts of an OBJ body; faces of `n` corners count
/// as `n - 2` triangles.
pub fn parse_obj_info(b: &[u8]) -> (r: ModelInfo)
    ensures
        r == obj_info(b@),
{
    let kv = chars_of("v ");
    let kf = chars_of("f ");
    let kn = chars_of("vn ");
    let kt = chars_of("vt ");
    proof {
        reveal_strlit("v ");
        reveal_strlit("f ");
        reveal_strlit("vn ");
        reveal_strlit("vt ");
    }
    assert(kv@ =~= seq!['v', ' ']);
    assert(kf@ =~= seq!['f', ' ']);
    assert(kn@ =~= seq!['v', 'n', ' ']);
    assert(kt@ =~= seq!['v', 't', ' ']);
    let ghost init = ObjTally { vertices: 0, triangles: 0, normals: false, uvs: false };
    let mut verts: u64 = 0;
    let mut tris: u64 = 0;
    let mut normals = false;
    let mut uvs = false;
    let blen = b.len();
    let mut i: usize = 0;
    while i < b.len()
        invariant
            blen == b@.len(),
            kv@ == seq!['v', ' '],
            kf@ == seq!['f', ' '],
            kn@ == seq!['v', 'n', ' '],
            kt@ == seq!['v', 't', ' '],
            i <= b@.len(),
            verts + tris <= i,
            obj_from(b@, i as int, ObjTally { vertices: verts as nat, triangles: tris as nat, normals, uvs })
                == obj_from(b@, 0, init),
        decreases b@.len() - i,
    {
        let e = line_end(b, i);
        let s = skip_inline(b, i);
        proof {
            if s > e {
                assert(s <= e) by {
                    lemma_inline_stops(b@, i as int);
                }
            }
        }
        let t = trimmed_end_exec(b, s, e);
        let next = if e < b.len() { e + 1 } else { b.len() };
        if s < t {
            if key_at(b, s, t, &kv) {
                verts = verts + 1;
            } else if key_at(b, s, t, &kf) {
                let n = count_tokens(b, s + 2, t);
                proof {
                    lemma_tokens_bound(b@, s as int + 2, t as int);
                }
                if n >= 3 {
                    tris = tris + (n - 2) as u64;
                }
            } else if key_at(b, s, t, &kn) {
                normals = true;
            } else if key_at(b, s, t, &kt) {
                uvs = true;
            }
        }
        i = next;
    }
    ModelInfo {
        vertex_count: Some(verts),
        triangle_count: Some(tris),
        submesh_count: Some(1),
        has_normals: normals,
        has_uvs: uvs,
    }
}

proof fn lemma_inline_stops(b: Seq<u8>, i: int)
    requires
        0 <= i <= b.len(),
    ensures
        skip_while(b, i, inline_space()) <= skip_while(b, i, not_newline()),
    decreases b.len() - i,
{
    if i < b.len() && inline_space()(b[i]) {
        lemma_inline_stops(b, i + 1);
    } else {
        lemma_skip_bounds(b, i, not_newline());
    }
}

/// `key` occurs in `b`.
pub open spec fn has_key(b: Seq<u8>, key: Seq<char>) -> bool {
    first_pos(b, 0, key) is Some
}

fn has_key_exec(b: &[u8], key: &str) -> (r: bool)
    ensures
        r == has_key(b@, key@),
{
    let k = chars_of(key);
    first_pos_exec(b, &k).is_some()
}

/// The header of a binary FBX file.
pub open spec fn fbx_binary(b: Seq<u8>) -> bool {
    b.len() > 20 && lit_at(b, 0, "Kaydara FBX Binary"@)
}

/// The vertex count of the last `Vertices: *N` line at or after `i` whose `N`
/// reads as a `u64`, divided by three; `cur` when there is none.
pub open spec fn fbx_vertices_from(b: Seq<u8>, i: int, cur: nat) -> nat
    decreases b.len() - i,
{
    if i < 0 || i >= b.len() {
        cur
    } else {
        let e = skip_while(b, i, not_newline());
        let s = skip_while(b, i, inline_space());
        let t = trimmed_end(b, s, e);
        let next = if s <= e && e < b.len() { e + 1 } else { b.len() as int };
        let p = skip_while(b, s + 11, inline_space());
        let q = skip_while(b, p, digit());
        let cur2 = if s <= e && starts(b, s, t, "Vertices: *"@) && p < q && q <= t
            && (q == t || is_space(b[q])) && digits_value(b, p, q) <= u64::MAX {
            digits_value(b, p, q) / 3
        } else {
            cur
        };
        if next > i { fbx_vertices_from(b, next, cur2) } else { cur2 }
    }
}

/// What an FBX file gives: presence flags only for binary files; the
/// declared vertex count and presence flags for text files.
pub open spec fn fbx_info(b: Seq<u8>) -> ModelInfo {
    if fbx_binary(b) {
        ModelInfo {
            vertex_count: None,
            triangle_count: None,
            submesh_count: None,
            has_normals: has_key(b, "Normals"@),
            has_uvs: has_key(b, "UV"@),
        }
    } else {
        let v = fbx_vertices_from(b, 0, 0);
        ModelInfo {
            vertex_count: if v > 0 { Some(v as u64) } else { None },
            triangle_count: None,
            submesh_count: None,
            has_normals: has_key(b, "Normals:"@) || has_key(b, "LayerElementNormal"@),
            has_uvs: has_key(b, "UV:"@) || has_key(b, "LayerElementUV"@),
        }
    }
}

/// Reads an FBX body.
pub fn parse_fbx_info(b: &[u8]) -> (r: ModelInfo)
    ensures
        r == fbx_info(b@),
{
    let header = chars_of("Kaydara FBX Binary");
    let binary = b.len() > 20 && lit_at_exec(b, 0, &header);
    if binary {
        return ModelInfo {
            vertex_count: None,
            triangle_count: None,
            submesh_count: None,
            has_normals: has_key_exec(b, "Normals"),
            has_uvs: has_key_exec(b, "UV"),
        };
    }
    let key = chars_of("Vertices: *");
    proof {
        reveal_strlit("Vertices: *");
    }
    assert(key@.len() == 11);
    let blen = b.len();
    let mut cur: u64 = 0;
    let mut i: usize = 0;
    while i < b.len()
        invariant
            blen == b@.len(),
            key@ == "Vertices: *"@,
            key@.len() == 11,
            i <= b@.len(),
            fbx_vertices_from(b@, i as int, cur as nat) == fbx_vertices_from(b@, 0, 0),
        decreases b@.len() - i,
    {
        let e = line_end(b, i);
        let s = skip_inline(b, i);
        proof {
            lemma_inline_stops(b@, i as int);
        }
        let t = trimmed_end_exec(b, s, e);
        let next = if e < b.len() { e + 1 } else { b.len() };
        if key_at(b, s, t, &key) {
            let p = skip_inline(b, s + 11);
            let q = skip_digits(b, p);
            if p < q && q <= t && (q == t || b[q] == 32 || b[q] == 9 || b[q] == 13 || b[q] == 10) {
                match digits_u64(b, p, q) {
                    Some(v) => {
                        cur = v / 3;
                    },
                    None => {},
                }
            }
        }
        i = next;
    }
    let normals = has_key_exec(b, "Normals:") || has_key_exec(b, "LayerElementNormal");
    let uvs = has_key_exec(b, "UV:") || has_key_exec(b, "LayerElementUV");
    ModelInfo {
        vertex_count: if cur > 0 { Some(cur) } else { None },
        triangle_count: None,
        submesh_count: None,
        has_normals: normals,
        has_uvs: uvs,
    }
}

/// Presence flags only, for formats read without counting.
pub open spec fn flags_only() -> ModelInfo {
    ModelInfo { vertex_count: None, triangle_count: None, submesh_count: None, has_normals: true, has_uvs: true }
}

/// What a glTF text gives: flags when it declares meshes.
pub open spec fn gltf_info(b: Seq<u8>) -> Option<ModelInfo> {
    if has_key(b, "\"meshes\""@) { Some(flags_only()) } else { None }
}

/// What a binary glTF gives: flags when it is not empty.
pub open spec fn glb_info(b: Seq<u8>) -> Option<ModelInfo> {
    if b.len() > 0 { Some(flags_only()) } else { None }
}

/// The value of the `count="N"` attribute at `i`, when `N` reads as a `u64`.
pub open spec fn count_attr(b: Seq<u8>, i: int) -> Option<nat> {
    let q = skip_while(b, i + 7, digit());
    if lit_at(b, i, "count=\""@) && q > i + 7 && q < b.len() && b[q] == 34 && digits_value(b, i + 7, q) <= u64::MAX {
        Some(digits_value(b, i + 7, q))
    } else {
        None
    }
}

/// The first `count="N"` attribute in `b[i..end]`.
pub open spec fn first_count(b: Seq<u8>, i: int, end: int) -> Option<nat>
    decreases end - i,
{
    if i < 0 || i >= end {
        None
    } else {
        match count_attr(b, i) {
            Some(n) => Some(n),
            None => first_count(b, i + 1, end),
        }
    }
}

/// `positions-array`, an optional quote, white space, then a count attribute.
pub open spec fn positions_at(b: Seq<u8>, i: int) -> Option<nat> {
    if lit_at(b, i, "positions-array"@) {
        let j = if i + 15 < b.len() && b[i + 15] == 34 { i + 16 } else { i + 15 };
        let k = skip_while(b, j, crate::scan_text::space());
        if k > j { count_attr(b, k) } else { None }
    } else {
        None
    }
}

/// The count of the first positions array at or after `i`.
pub open spec fn first_positions(b: Seq<u8>, i: int) -> Option<nat>
    decreases b.len() - i,
{
    if i < 0 || i >= b.len() {
        None
    } else {
        match positions_at(b, i) {
            Some(n) => Some(n),
            None => first_positions(b, i + 1),
        }
    }
}

pub open spec fn not_gt() -> spec_fn(u8) -> bool {
    |c: u8| c != 62
}

/// Sum, capped at `u64::MAX`, of the first count attribute of each
/// `<triangles` tag at or after `i`.
pub open spec fn triangles_from(b: Seq<u8>, i: int, acc: nat) -> nat
    decreases b.len() - i,
{
    if i < 0 || i >= b.len() {
        acc
    } else if lit_at(b, i, "<triangles"@) {
        let end = skip_while(b, i + 10, not_gt());
        let acc2 = match first_count(b, i + 10, end) {
            Some(n) => if acc + n <= u64::MAX { acc + n } else { u64::MAX as nat },
            None => acc,
        };
        triangles_from(b, i + 1, acc2)
    } else {
        triangles_from(b, i + 1, acc)
    }
}

/// What a COLLADA file gives.
pub open spec fn dae_info(b: Seq<u8>) -> ModelInfo {
    let v = match first_positions(b, 0) { Some(n) => n / 3, None => 0 };
    let t = triangles_from(b, 0, 0);
    ModelInfo {
        vertex_count: if v > 0 { Some(v as u64) } else { None },
        triangle_count: if t > 0 { Some(t as u64) } else { None },
        submesh_count: None,
        has_normals: has_key(b, "<source"@) && has_key(b, "NORMAL"@),
        has_uvs: has_key(b, "TEXCOORD"@),
    }
}

fn count_attr_exec(b: &[u8], i: usize, key: &Vec<char>) -> (r: Option<u64>)
    requires
        key@ == "count=\""@,
        key@.len() == 7,
        i <= b@.len(),
    ensures
        match r {
            Some(v) => count_attr(b@, i as int) == Some(v as nat),
            None => count_attr(b@, i as int) is None,
        },
{
    if !lit_at_exec(b, i, key) {
        return None;
    }
    let blen = b.len();
    assert(blen == b@.len());
    let q = skip_digits(b, i + 7);
    if q > i + 7 && q < b.len() && b[q] == 34 {
        digits_u64(b, i + 7, q)
    } else {
        None
    }
}

fn first_count_exec(b: &[u8], i: usize, end: usize, key: &Vec<char>) -> (r: Option<u64>)
    requires
        key@ == "count=\""@,
        key@.len() == 7,
        i <= end <= b@.len(),
    ensures
        match r {
            Some(v) => first_count(b@, i as int, end as int) == Some(v as nat),
            None => first_count(b@, i as int, end as int) is None,
        },
{
    let mut k: usize = i;
    while k < end
        invariant
            key@ == "count=\""@,
            key@.len() == 7,
            i <= k <= end <= b@.len(),
            first_count(b@, k as int, end as int) == first_count(b@, i as int, end as int),
        decreases end - k,
    {
        match count_attr_exec(b, k, key) {
            Some(v) => {
                return Some(v);
            },
            None => {},
        }
        k = k + 1;
    }
    None
}

fn skip_tag(b: &[u8], i: usize) -> (r: usize)
    requires
        i <= b@.len(),
    ensures
        i <= r <= b@.len(),
        r == skip_while(b@, i as int, not_gt()),
{
    let mut k: usize = i;
    while k < b.len() && b[k] != 62
        invariant
            i <= k <= b@.len(),
            skip_while(b@, k as int, not_gt()) == skip_while(b@, i as int, not_gt()),
        decreases b@.len() - k,
    {
        k = k + 1;
    }
    k
}

fn skip_ws(b: &[u8], i: usize) -> (r: usize)
    requires
        i <= b@.len(),
    ensures
        i <= r <= b@.len(),
        r == skip_while(b@, i as int, crate::scan_text::space()),
{
    crate::scan_text::skip_spaces(b, i)
}

/// Reads a COLLADA body.
pub fn parse_dae_info(b: &[u8]) -> (r: ModelInfo)
    ensures
        r == dae_info(b@),
{
    let ckey = chars_of("count=\"");
    let pkey = chars_of("positions-array");
    let tkey = chars_of("<triangles");
    proof {
        reveal_strlit("count=\"");
        reveal_strlit("positions-array");
        reveal_strlit("<triangles");
    }
    assert(ckey@.len() == 7);
    assert(pkey@.len() == 15);
    assert(tkey@.len() == 10);
    let blen = b.len();
    let mut positions: Option<u64> = None;
    let mut i: usize = 0;
    while i < b.len()
        invariant_except_break
            positions is None,
        invariant
            blen == b@.len(),
            ckey@ == "count=\""@,
            ckey@.len() == 7,
            pkey@ == "positions-array"@,
            pkey@.len() == 15,
            i <= b@.len(),
            first_positions(b@, i as int) == first_positions(b@, 0),
        ensures
            match positions {
                Some(v) => first_positions(b@, 0) == Some(v as nat),
                None => first_positions(b@, 0) is None,
            },
        decreases b@.len() - i,
    {
        if lit_at_exec(b, i, &pkey) {
            let j = if i + 15 < b.len() && b[i + 15] == 34 { i + 16 } else { i + 15 };
            let k = skip_ws(b, j);
            if k > j {
                match count_attr_exec(b, k, &ckey) {
                    Some(v) => {
                        assert(first_positions(b@, i as int) == Some(v as nat));
                        positions = Some(v);
                        break;
                    },
                    None => {},
                }
            }
        }
        i = i + 1;
    }
    let mut tris: u64 = 0;
    let mut i: usize = 0;
    while i < b.len()
        invariant
            blen == b@.len(),
            ckey@ == "count=\""@,
            ckey@.len() == 7,
            tkey@ == "<triangles"@,
            tkey@.len() == 10,
            i <= b@.len(),
            triangles_from(b@, i as int, tris as nat) == triangles_from(b@, 0, 0),
        decreases b@.len() - i,
    {
        if lit_at_exec(b, i, &tkey) {
            let end = skip_tag(b, i + 10);
            match first_count_exec(b, i + 10, end, &ckey) {
                Some(n) => {
                    tris = if n <= u64::MAX - tris { tris + n } else { u64::MAX };
                },
                None => {},
            }
        }
        i = i + 1;
    }
    let v = match positions { Some(n) => n / 3, None => 0 };
    ModelInfo {
        vertex_count: if v > 0 { Some(v) } else { None },
        triangle_count: if tris > 0 { Some(tris) } else { None },
        submesh_count: None,
        has_normals: has_key_exec(b, "<source") && has_key_exec(b, "NORMAL"),
        has_uvs: has_key_exec(b, "TEXCOORD"),
    }
}

/// What a model file gives, by its lower-case extension.
pub open spec fn model_info_of(ext: Seq<char>, b: Seq<u8>) -> Option<ModelInfo> {
    if ext == "obj"@ {
        Some(obj_info(b))
    } else if ext == "gltf"@ {
        gltf_info(b)
    } else if ext == "glb"@ {
        glb_info(b)
    } else if ext == "fbx"@ {
        Some(fbx_info(b))
    } else if ext == "dae"@ {
        Some(dae_info(b))
    } else if ext == "blend"@ {
        Some(flags_only())
    } else {
        None
    }
}

fn ext_is(e: &Vec<char>, lit: &str) -> (r: bool)
    ensures
        r == (e@ == lit@),
{
    let l = chars_of(lit);
    if l.len() != e.len() {
        return false;
    }
    let mut i: usize = 0;
    while i < l.len()
        invariant
            l@ == lit@,
            l@.len() == e@.len(),
            i <= l@.len(),
            forall|k: int| 0 <= k < i ==> l@[k] == e@[k],
        decreases l@.len() - i,
    {
        if l[i] != e[i] {
            return false;
        }
        i = i + 1;
    }
    assert(l@ =~= e@);
    true
}

/// Reads a model body; the format comes from the extension, compared without
/// ASCII case. `None` for formats that are not models.
pub fn parse_model_info(ext: &str, b: &[u8]) -> (r: Option<ModelInfo>)
    ensures
        r == model_info_of(crate::text::fold_text(ext@), b@),
{
    let e = crate::text::fold_all(&chars_of(ext));
    if ext_is(&e, "obj") {
        Some(parse_obj_info(b))
    } else if ext_is(&e, "gltf") {
        if has_key_exec(b, "\"meshes\"") {
            Some(ModelInfo { vertex_count: None, triangle_count: None, submesh_count: None, has_normals: true, has_uvs: true })
        } else {
            None
        }
    } else if ext_is(&e, "glb") {
        if b.len() > 0 {
            Some(ModelInfo { vertex_count: None, triangle_count: None, submesh_count: None, has_normals: true, has_uvs: true })
        } else {
            None
        }
    } else if ext_is(&e, "fbx") {
        Some(parse_fbx_info(b))
    } else if ext_is(&e, "dae") {
        Some(parse_dae_info(b))
    } else if ext_is(&e, "blend") {
        Some(ModelInfo { vertex_count: None, triangle_count: None, submesh_count: None, has_normals: true, has_uvs: true })
    } else {
        None
    }
}
} // verus!
