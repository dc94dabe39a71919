//! Dependency resolution: turning outbound references into edges, and the
//! bounded transitive expansion used for bundles.
use vstd::prelude::*;
use crate::model::{Asset, AssetType, AssetView, DepKind, Dependency, DependencyView, LibraryError, ReferenceView, deps_view};
use crate::store::{Store, leaves, not_leaving};
use crate::text::{chars_of, opt_view, push_char, push_str, same_text, string_of};

verus! {

/// `node` is reached from `root` along at most `k` edges of `deps`.
pub open spec fn reach(deps: Seq<DependencyView>, root: u64, node: u64, k: int) -> bool
    decreases k,
{
    node == root || (k > 0 && exists|i: int|
        0 <= i < deps.len() && (#[trigger] deps[i]).target_asset_id == node && reach(
            deps,
            root,
            deps[i].source_asset_id,
            k - 1,
        ))
}

proof fn lemma_reach_step(deps: Seq<DependencyView>, root: u64, i: int, k: int)
    requires
        0 <= k,
        0 <= i < deps.len(),
        reach(deps, root, deps[i].source_asset_id, k),
    ensures
        reach(deps, root, deps[i].target_asset_id, k + 1),
{
    assert(reach(deps, root, deps[i].source_asset_id, (k + 1) - 1));
}

proof fn lemma_reach_mono(deps: Seq<DependencyView>, root: u64, node: u64, k: int)
    requires
        0 <= k,
        reach(deps, root, node, k),
    ensures
        reach(deps, root, node, k + 1),
    decreases k,
{
    if node != root {
        assert(k > 0);
        let i = choose|i: int|
            0 <= i < deps.len() && (#[trigger] deps[i]).target_asset_id == node && reach(
                deps,
                root,
                deps[i].source_asset_id,
                k - 1,
            );
        lemma_reach_mono(deps, root, deps[i].source_asset_id, k - 1);
        lemma_reach_step(deps, root, i, k);
    }
}

/// `x` is at most as many edges from `root` as `y`: every bound within
/// which `y` is reached also reaches `x`.
pub open spec fn nearer(deps: Seq<DependencyView>, root: u64, x: u64, y: u64) -> bool {
    forall|k: int| 0 <= k && #[trigger] reach(deps, root, y, k) ==> reach(deps, root, x, k)
}

proof fn lemma_reach_up(deps: Seq<DependencyView>, root: u64, node: u64, a: int, b: int)
    requires
        0 <= a <= b,
        reach(deps, root, node, a),
    ensures
        reach(deps, root, node, b),
    decreases b - a,
{
    if a < b {
        lemma_reach_mono(deps, root, node, a);
        lemma_reach_up(deps, root, node, a + 1, b);
    }
}

fn contains_id(v: &Vec<u64>, x: u64) -> (r: bool)
    ensures
        r == v@.contains(x),
{
    let mut i: usize = 0;
    while i < v.len()
        invariant
            i <= v@.len(),
            forall|j: int| 0 <= j < i ==> v@[j] != x,
        decreases v@.len() - i,
    {
        if v[i] == x {
            return true;
        }
        i = i + 1;
    }
    false
}

/// The assets reached from `root` along at most `max_depth` edges, each
/// once, nearer ones first, without `root` itself (so no cycle through
/// `root` shows).
pub fn get_dependency_tree(store: &Store, root: u64, max_depth: usize) -> (r: Vec<u64>)
    ensures
        r@.no_duplicates(),
        !r@.contains(root),
        forall|n: u64| r@.contains(n) <==> n != root && reach(store.deps_m(), root, n, max_depth as int),
        forall|i: int, j: int| 0 <= i < j < r@.len() ==> nearer(store.deps_m(), root, #[trigger] r@[i], #[trigger] r@[j]),
{
    let ghost g = store.deps_m();
    let mut visited: Vec<u64> = vec![root];
    let mut d: usize = 0;
    assert forall|n: u64| visited@.contains(n) <==> reach(g, root, n, 0) by {
        if visited@.contains(n) {
            assert(visited@[0] == root);
        }
        if reach(g, root, n, 0) {
            assert(visited@[0] == n);
        }
    }
    while d < max_depth
        invariant
            g == store.deps_m(),
            d <= max_depth,
            visited@.len() >= 1,
            visited@[0] == root,
            visited@.no_duplicates(),
            forall|n: u64| visited@.contains(n) <==> reach(g, root, n, d as int),
            forall|a: int, b: int| 0 <= a < b < visited@.len() ==> nearer(g, root, #[trigger] visited@[a], #[trigger] visited@[b]),
        decreases max_depth - d,
    {
        let ghost before = visited@;
        let snapshot_len = visited.len();
        proof {
            assert forall|n: u64| visited@.contains(n) implies reach(g, root, n, d as int + 1) by {
                lemma_reach_mono(g, root, n, d as int);
            }
            assert(visited@.subrange(0, snapshot_len as int) =~= before);
        }
        let mut m: usize = 0;
        while m < store.deps.len()
            invariant
                g == store.deps_m(),
                snapshot_len == before.len(),
                snapshot_len >= 1,
                visited@.len() >= snapshot_len,
                visited@.subrange(0, snapshot_len as int) == before,
                visited@[0] == root,
                visited@.no_duplicates(),
                forall|n: u64| before.contains(n) <==> reach(g, root, n, d as int),
                forall|n: u64| visited@.contains(n) ==> reach(g, root, n, d as int + 1),
                forall|a: int, b: int| 0 <= a < b < visited@.len() ==> nearer(g, root, #[trigger] visited@[a], #[trigger] visited@[b]),
                forall|k: int|
                    0 <= k < m && before.contains(#[trigger] g[k].source_asset_id)
                        ==> visited@.contains(g[k].target_asset_id),
                m <= g.len(),
            decreases store.deps@.len() - m,
        {
            let e = &store.deps[m];
            assert(g[m as int] == e@);
            let mut in_before = false;
            let mut j: usize = 0;
            while j < snapshot_len
                invariant
                    snapshot_len == before.len(),
                    visited@.len() >= snapshot_len,
                    visited@.subrange(0, snapshot_len as int) == before,
                    j <= snapshot_len,
                    in_before == exists|q: int| 0 <= q < j && before[q] == e.source_asset_id,
                    forall|q: int| 0 <= q < snapshot_len ==> visited@[q] == before[q],
                decreases snapshot_len - j,
            {
                if visited[j] == e.source_asset_id {
                    assert(before[j as int] == e.source_asset_id);
                    in_before = true;
                } else {
                    assert(before[j as int] != e.source_asset_id);
                }
                j = j + 1;
            }
            if in_before {
                let t = e.target_asset_id;
                proof {
                    assert(before.contains(e.source_asset_id));
                    lemma_reach_step(g, root, m as int, d as int);
                    assert(reach(g, root, t, d as int + 1));
                }
                if !contains_id(&visited, t) {
                    let ghost pv = visited@;
                    proof {
                        assert(!before.contains(t)) by {
                            if before.contains(t) {
                                let q = choose|q: int| 0 <= q < before.len() && before[q] == t;
                                assert(pv.subrange(0, snapshot_len as int)[q] == t);
                                assert(pv[q] == t);
                            }
                        }
                        assert(!reach(g, root, t, d as int));
                        assert forall|x: u64| pv.contains(x) implies nearer(g, root, x, t) by {
                            assert forall|k: int| 0 <= k && #[trigger] reach(g, root, t, k) implies reach(g, root, x, k) by {
                                if k <= d {
                                    lemma_reach_up(g, root, t, k, d as int);
                                } else {
                                    lemma_reach_up(g, root, x, d as int + 1, k);
                                }
                            }
                        }
                    }
                    visited.push(t);
                    assert forall|a: int, b: int| 0 <= a < b < visited@.len() implies nearer(g, root, #[trigger] visited@[a], #[trigger] visited@[b]) by {
                        assert(visited@[a] == pv[a]);
                        if b < pv.len() {
                            assert(visited@[b] == pv[b]);
                        } else {
                            assert(pv.contains(pv[a]));
                        }
                    }
                    assert(visited@.subrange(0, snapshot_len as int) =~= pv.subrange(0, snapshot_len as int));
                    assert forall|n: u64| visited@.contains(n) implies reach(g, root, n, d as int + 1) by {
                        if n != t {
                            let q = choose|q: int| 0 <= q < visited@.len() && visited@[q] == n;
                            assert(pv[q] == n);
                            assert(pv.contains(n));
                        }
                    }
                    assert forall|k: int|
                        0 <= k <= m && before.contains(#[trigger] g[k].source_asset_id) implies visited@.contains(g[k].target_asset_id) by {
                        if k < m {
                            let q = choose|q: int| 0 <= q < pv.len() && pv[q] == g[k].target_asset_id;
                            assert(visited@[q] == g[k].target_asset_id);
                        } else {
                            assert(visited@[visited@.len() - 1] == t);
                        }
                    }
                }
            } else {
                assert(!before.contains(e.source_asset_id));
            }
            m = m + 1;
        }
        assert forall|n: u64| visited@.contains(n) <==> reach(g, root, n, d as int + 1) by {
            if reach(g, root, n, d as int + 1) && n != root {
                let i = choose|i: int|
                    0 <= i < g.len() && (#[trigger] g[i]).target_asset_id == n && reach(
                        g,
                        root,
                        g[i].source_asset_id,
                        d as int + 1 - 1,
                    );
                assert(before.contains(g[i].source_asset_id));
            }
            if n == root {
                assert(visited@[0] == root);
            }
        }
        d = d + 1;
    }
    let ghost all = visited@;
    let mut out: Vec<u64> = Vec::new();
    let mut i: usize = 1;
    while i < visited.len()
        invariant
            all == visited@,
            g == store.deps_m(),
            all[0] == root,
            all.no_duplicates(),
            forall|n: u64| all.contains(n) <==> reach(g, root, n, max_depth as int),
            forall|a: int, b: int| 0 <= a < b < all.len() ==> nearer(g, root, #[trigger] all[a], #[trigger] all[b]),
            1 <= i <= visited@.len(),
            out@ == visited@.subrange(1, i as int),
        decreases visited@.len() - i,
    {
        out.push(visited[i]);
        i = i + 1;
        assert(out@ =~= visited@.subrange(1, i as int));
    }
    proof {
        assert(out@ =~= all.subrange(1, all.len() as int));
        assert forall|n: u64| out@.contains(n) <==> n != root && all.contains(n) by {
            if out@.contains(n) {
                let q = choose|q: int| 0 <= q < out@.len() && out@[q] == n;
                assert(all[q + 1] == n);
                assert(all[0] == root);
            }
            if n != root && all.contains(n) {
                let q = choose|q: int| 0 <= q < all.len() && all[q] == n;
                assert(q != 0);
                assert(out@[q - 1] == n);
            }
        }
        assert forall|n: u64| out@.contains(n) <==> n != root && reach(store.deps_m(), root, n, max_depth as int) by {
            if out@.contains(n) {
                assert(all.contains(n));
            }
            if n != root && reach(store.deps_m(), root, n, max_depth as int) {
                assert(all.contains(n));
            }
        }
        assert forall|a: int, b: int| 0 <= a < b < out@.len() implies out@[a] != out@[b] by {
            assert(out@[a] == all[a + 1]);
            assert(out@[b] == all[b + 1]);
        }
        assert forall|a: int, b: int| 0 <= a < b < out@.len() implies nearer(store.deps_m(), root, #[trigger] out@[a], #[trigger] out@[b]) by {
            assert(out@[a] == all[a + 1]);
            assert(out@[b] == all[b + 1]);
        }
    }
    out
}


pub proof fn lemma_accepted_same(s1: &Store, s2: &Store, src: u64, edges: Seq<DependencyView>)
    requires
        s1.assets == s2.assets,
    ensures
        s1.accepted_edges(src, edges) == s2.accepted_edges(src, edges),
    decreases edges.len(),
{
    if edges.len() > 0 {
        lemma_accepted_same(s1, s2, src, edges.drop_last());
        assert(s1.edge_ok(edges.last()) == s2.edge_ok(edges.last()));
    }
}

proof fn lemma_accepted_source(s: &Store, src: u64, edges: Seq<DependencyView>)
    ensures
        forall|k: int| 0 <= k < s.accepted_edges(src, edges).len() ==> (#[trigger] s.accepted_edges(src, edges)[k]).source_asset_id == src,
    decreases edges.len(),
{
    if edges.len() > 0 {
        lemma_accepted_source(s, src, edges.drop_last());
        let prev = s.accepted_edges(src, edges.drop_last());
        let cur = s.accepted_edges(src, edges);
        assert forall|k: int| 0 <= k < cur.len() implies (#[trigger] cur[k]).source_asset_id == src by {
            if k < prev.len() {
                assert(cur[k] == prev[k]);
            }
        }
    }
}

/// Keeping the edges that do not leave `x`, then those that leave `y`.
proof fn lemma_filter_other_source(d: Seq<DependencyView>, x: u64, y: u64)
    ensures
        d.filter(not_leaving(x)).filter(leaves(y)) == if x == y { Seq::<DependencyView>::empty() } else { d.filter(leaves(y)) },
    decreases d.len(),
{
    reveal(Seq::filter);
    if d.len() > 0 {
        let dl = d.drop_last();
        let l = d.last();
        lemma_filter_other_source(dl, x, y);
        let p1 = dl.filter(not_leaving(x));
        if l.source_asset_id != x {
            assert(d.filter(not_leaving(x)) == p1.push(l));
            assert(p1.push(l).drop_last() =~= p1);
            assert(p1.push(l).last() == l);
        } else {
            assert(d.filter(not_leaving(x)) == p1);
        }
    } else {
        assert(d.filter(not_leaving(x)) =~= d);
    }
}

/// Edges that all leave `x`, kept when they leave `y`.
proof fn lemma_only_source(a: Seq<DependencyView>, x: u64, y: u64)
    requires
        forall|k: int| 0 <= k < a.len() ==> (#[trigger] a[k]).source_asset_id == x,
    ensures
        a.filter(leaves(y)) == if x == y { a } else { Seq::<DependencyView>::empty() },
    decreases a.len(),
{
    reveal(Seq::filter);
    if a.len() > 0 {
        lemma_only_source(a.drop_last(), x, y);
        assert(a.drop_last().push(a.last()) =~= a);
    }
}

/// The directory part of a path: everything before its last `/`.
pub open spec fn parent_dir(p: Seq<char>) -> Seq<char>
    decreases p.len(),
{
    if p.len() == 0 {
        p
    } else if p.last() == '/' {
        p.drop_last()
    } else {
        parent_dir(p.drop_last())
    }
}

fn parent_len(p: &Vec<char>, n: usize) -> (r: usize)
    requires
        n <= p@.len(),
    ensures
        r <= n,
        p@.subrange(0, r as int) == parent_dir(p@.subrange(0, n as int)),
    decreases n,
{
    if n == 0 {
        return 0;
    }
    assert(p@.subrange(0, n as int).drop_last() =~= p@.subrange(0, n as int - 1));
    if p[n - 1] == '/' {
        n - 1
    } else {
        parent_len(p, n - 1)
    }
}

/// The id of the asset of project `pid` whose guid is `g`.
pub open spec fn guid_owner(s: Seq<AssetView>, pid: u64, g: Seq<char>) -> Option<u64> {
    if exists|i: int| 0 <= i < s.len() && s[i].project_id == pid && s[i].guid == Some(g) {
        Some(s[choose|i: int| 0 <= i < s.len() && s[i].project_id == pid && s[i].guid == Some(g)].id)
    } else {
        None
    }
}

/// The id of the asset of project `pid` at path `p`.
pub open spec fn path_owner(s: Seq<AssetView>, pid: u64, p: Seq<char>) -> Option<u64> {
    if exists|i: int| 0 <= i < s.len() && s[i].project_id == pid && s[i].absolute_path == p {
        Some(
            s[choose|i: int|
                0 <= i < s.len() && s[i].project_id == pid && s[i].absolute_path == p].id,
        )
    } else {
        None
    }
}

/// The target of a reference from asset `a` of a project rooted at `root`: by
/// guid; or by path, first beside the source, then under the project root.
pub open spec fn ref_target(s: Seq<AssetView>, a: AssetView, root: Seq<char>, r: ReferenceView) -> Option<u64> {
    match r.kind {
        DepKind::Guid => guid_owner(s, a.project_id, r.target),
        DepKind::Path => match path_owner(s, a.project_id, parent_dir(a.absolute_path) + seq!['/'] + r.target) {
            Some(t) => Some(t),
            None => path_owner(s, a.project_id, root + seq!['/'] + r.target),
        },
    }
}

/// The edges that the references of `a` resolve to, in order; unresolved
/// references give none.
pub open spec fn resolved_edges(s: Seq<AssetView>, a: AssetView, root: Seq<char>, refs: Seq<ReferenceView>) -> Seq<DependencyView>
    decreases refs.len(),
{
    if refs.len() == 0 {
        Seq::empty()
    } else {
        let prev = resolved_edges(s, a, root, refs.drop_last());
        let r = refs.last();
        match ref_target(s, a, root, r) {
            Some(t) => prev.push(DependencyView { source_asset_id: a.id, target_asset_id: t, kind: r.kind, slot_name: r.slot_name }),
            None => prev,
        }
    }
}

/// The root path of project `pid`.
pub open spec fn root_of(store: &Store, pid: u64) -> Seq<char> {
    store.projects@[choose|i: int| 0 <= i < store.projects@.len() && store.projects@[i].id == pid].root_path@
}

impl Store {
    fn guid_target(&self, pid: u64, g: &String) -> (r: Option<u64>)
        requires
            self.wf(),
        ensures
            r == guid_owner(self.assets_m(), pid, g@),
    {
        match self.get_asset_by_guid(pid, g) {
            Some(a) => {
                proof {
                    let s = self.assets_m();
                    let i = choose|i: int| 0 <= i < self.assets@.len() && self.assets@[i]@ == a@ && a.project_id == pid && opt_view(a.guid) == Some(g@);
                    assert(s[i].guid == Some(g@));
                    let c = choose|c: int| 0 <= c < s.len() && s[c].project_id == pid && s[c].guid == Some(g@);
                    if c != i {
                        assert(opt_view(self.assets@[c].guid) == s[c].guid);
                        assert(opt_view(self.assets@[i].guid) != opt_view(self.assets@[c].guid));
                    }
                }
                Some(a.id)
            },
            None => {
                proof {
                    let s = self.assets_m();
                    if exists|i: int| 0 <= i < s.len() && s[i].project_id == pid && s[i].guid == Some(g@) {
                        let i = choose|i: int| 0 <= i < s.len() && s[i].project_id == pid && s[i].guid == Some(g@);
                        assert(opt_view(self.assets@[i].guid) == s[i].guid);
                    }
                }
                None
            },
        }
    }

    fn path_target(&self, pid: u64, p: &String) -> (r: Option<u64>)
        requires
            self.wf(),
        ensures
            r == path_owner(self.assets_m(), pid, p@),
    {
        let mut i: usize = 0;
        while i < self.assets.len()
            invariant
                self.wf(),
                i <= self.assets@.len(),
                forall|j: int| 0 <= j < i ==> !(self.assets@[j].project_id == pid && self.assets@[j].absolute_path@ == p@),
            decreases self.assets@.len() - i,
        {
            if self.assets[i].project_id == pid && same_text(&self.assets[i].absolute_path, p) {
                proof {
                    let s = self.assets_m();
                    assert(s[i as int] == self.assets@[i as int]@);
                    let c = choose|c: int| 0 <= c < s.len() && s[c].project_id == pid && s[c].absolute_path == p@;
                    assert(s[c] == self.assets@[c]@);
                    if c != i as int {
                        assert(self.assets@[c].absolute_path@ != self.assets@[i as int].absolute_path@);
                    }
                }
                return Some(self.assets[i].id);
            }
            i = i + 1;
        }
        proof {
            let s = self.assets_m();
            if exists|c: int| 0 <= c < s.len() && s[c].project_id == pid && s[c].absolute_path == p@ {
                let c = choose|c: int| 0 <= c < s.len() && s[c].project_id == pid && s[c].absolute_path == p@;
                assert(self.assets@[c].absolute_path@ == p@);
            }
        }
        None
    }

    fn joined(base: &Vec<char>, n: usize, tail: &String) -> (r: String)
        requires
            n <= base@.len(),
        ensures
            r@ == base@.subrange(0, n as int) + seq!['/'] + tail@,
    {
        let mut v: Vec<char> = Vec::new();
        let mut i: usize = 0;
        while i < n
            invariant
                n <= base@.len(),
                i <= n,
                v@ == base@.subrange(0, i as int),
            decreases n - i,
        {
            v.push(base[i]);
            i = i + 1;
            assert(v@ =~= base@.subrange(0, i as int));
        }
        let mut out = string_of(&v);
        push_char(&mut out, '/');
        push_str(&mut out, tail.as_str());
        out
    }

    fn target_of(&self, a: &Asset, root: &String, r: &crate::model::Reference) -> (t: Option<u64>)
        requires
            self.wf(),
        ensures
            t == ref_target(self.assets_m(), a@, root@, r@),
    {
        match r.kind {
            DepKind::Guid => self.guid_target(a.project_id, &r.target),
            DepKind::Path => {
                let pc = chars_of(a.absolute_path.as_str());
                let k = parent_len(&pc, pc.len());
                assert(pc@.subrange(0, pc@.len() as int) =~= pc@);
                let beside = Self::joined(&pc, k, &r.target);
                match self.path_target(a.project_id, &beside) {
                    Some(t) => Some(t),
                    None => {
                        let rc = chars_of(root.as_str());
                        assert(rc@.subrange(0, rc@.len() as int) =~= rc@);
                        let under = Self::joined(&rc, rc.len(), &r.target);
                        self.path_target(a.project_id, &under)
                    },
                }
            },
        }
    }

    fn edges_for(&self, a: &Asset, root: &String) -> (r: Vec<Dependency>)
        requires
            self.wf(),
        ensures
            deps_view(r@) == resolved_edges(self.assets_m(), a@, root@, a@.references),
    {
        let mut out: Vec<Dependency> = Vec::new();
        let mut i: usize = 0;
        while i < a.references.len()
            invariant
                self.wf(),
                i <= a.references@.len(),
                deps_view(out@) == resolved_edges(self.assets_m(), a@, root@, a@.references.subrange(0, i as int)),
            decreases a.references@.len() - i,
        {
            let r = &a.references[i];
            assert(a@.references.subrange(0, i as int + 1).drop_last() =~= a@.references.subrange(0, i as int));
            assert(a@.references[i as int] == r@);
            match self.target_of(a, root, r) {
                Some(t) => {
                    out.push(Dependency { source_asset_id: a.id, target_asset_id: t, kind: r.kind, slot_name: r.slot_name.clone() });
                },
                None => {},
            }
            i = i + 1;
            assert(deps_view(out@) =~= resolved_edges(self.assets_m(), a@, root@, a@.references.subrange(0, i as int)));
        }
        assert(a@.references.subrange(0, a@.references.len() as int) =~= a@.references);
        out
    }

    /// Replaces the edges leaving asset `id` by those its references resolve to.
    pub fn resolve_asset_dependencies(&mut self, id: u64) -> (r: Result<(), LibraryError>)
        requires
            old(self).wf(),
        ensures
            final(self).wf(),
            final(self).projects == old(self).projects,
            final(self).assets == old(self).assets,
            r is Ok <==> old(self).has_asset(id),
            r is Err ==> r == Err::<(), LibraryError>(LibraryError::AssetNotFound(id)) && *final(self) == *old(self),
            r is Ok ==> exists|i: int| 0 <= i < old(self).assets@.len() && old(self).assets@[i].id == id
                && final(self).deps_m() == old(self).deps_m().filter(not_leaving(id)) + old(self).accepted_edges(
                    id,
                    resolved_edges(old(self).assets_m(), old(self).assets@[i]@, root_of(old(self), old(self).assets@[i].project_id), old(self).assets@[i]@.references),
                ),
    {
        let a = match self.get_asset(id) {
            Some(a) => a,
            None => return Err(LibraryError::AssetNotFound(id)),
        };
        let p = match self.get_project(a.project_id) {
            Some(p) => p,
            None => return Err(LibraryError::InvalidProject),
        };
        let ghost i = choose|i: int| 0 <= i < self.assets@.len() && self.assets@[i]@ == a@;
        proof {
            let pi = choose|q: int| 0 <= q < self.projects@.len() && self.projects@[q]@ == p@;
            let c = choose|q: int| 0 <= q < self.projects@.len() && self.projects@[q].id == a.project_id;
            if c != pi {
                assert(self.projects@[c].id != self.projects@[pi].id);
            }
            assert(root_of(self, a.project_id) == p.root_path@);
        }
        let edges = self.edges_for(&a, &p.root_path);
        self.replace_dependencies(id, &edges);
        Ok(())
    }

    /// The edges that asset `i` gets when its references are resolved.
    pub open spec fn resolved_for(&self, i: int) -> Seq<DependencyView> {
        self.accepted_edges(
            self.assets@[i].id,
            resolved_edges(self.assets_m(), self.assets@[i]@, root_of(self, self.assets@[i].project_id), self.assets@[i]@.references),
        )
    }

    /// Resolves the references of every asset of project `pid`; returns how
    /// many assets were resolved. Afterwards the edges leaving each asset of
    /// the project are exactly those its references resolve to.
    pub fn resolve_all_for_project(&mut self, pid: u64) -> (r: usize)
        requires
            old(self).wf(),
        ensures
            final(self).wf(),
            final(self).projects == old(self).projects,
            final(self).assets == old(self).assets,
            r == old(self).assets_m().filter(crate::store::in_project(pid)).len(),
            forall|j: int|
                0 <= j < old(self).assets@.len() && old(self).assets@[j].project_id == pid ==> final(self).deps_m().filter(
                    leaves(old(self).assets@[j].id),
                ) == old(self).resolved_for(j),
    {
        let ghost pre = *self;
        let mut n: usize = 0;
        let mut i: usize = 0;
        while i < self.assets.len()
            invariant
                self.wf(),
                pre.wf(),
                self.projects == pre.projects,
                self.assets == pre.assets,
                i <= self.assets@.len(),
                n == pre.assets_m().subrange(0, i as int).filter(crate::store::in_project(pid)).len(),
                n <= i,
                forall|j: int|
                    0 <= j < i && pre.assets@[j].project_id == pid ==> self.deps_m().filter(leaves(pre.assets@[j].id))
                        == pre.resolved_for(j),
            decreases self.assets@.len() - i,
        {
            proof {
                crate::model::lemma_filter_step(pre.assets_m(), i as int, crate::store::in_project(pid));
            }
            if self.assets[i].project_id == pid {
                let id = self.assets[i].id;
                let ghost before = *self;
                let _ = self.resolve_asset_dependencies(id);
                proof {
                    let k = choose|k: int| 0 <= k < before.assets@.len() && before.assets@[k].id == id
                        && self.deps_m() == before.deps_m().filter(not_leaving(id)) + before.accepted_edges(
                            id,
                            resolved_edges(before.assets_m(), before.assets@[k]@, root_of(&before, before.assets@[k].project_id), before.assets@[k]@.references),
                        );
                    if k != i as int {
                        assert(before.assets@[k].id != before.assets@[i as int].id);
                    }
                    let acc = before.accepted_edges(
                        id,
                        resolved_edges(before.assets_m(), before.assets@[k]@, root_of(&before, before.assets@[k].project_id), before.assets@[k]@.references),
                    );
                    lemma_accepted_same(&before, &pre, id, resolved_edges(before.assets_m(), before.assets@[k]@, root_of(&before, before.assets@[k].project_id), before.assets@[k]@.references));
                    lemma_accepted_source(&before, id, resolved_edges(before.assets_m(), before.assets@[k]@, root_of(&before, before.assets@[k].project_id), before.assets@[k]@.references));
                    assert(root_of(&before, pid) == root_of(&pre, pid));
                    assert forall|j: int|
                        0 <= j <= i && pre.assets@[j].project_id == pid implies self.deps_m().filter(leaves(pre.assets@[j].id))
                            == pre.resolved_for(j) by {
                        let y = pre.assets@[j].id;
                        Seq::<DependencyView>::filter_distributes_over_add(before.deps_m().filter(not_leaving(id)), acc, leaves(y));
                        if j == i as int {
                            lemma_filter_other_source(before.deps_m(), id, id);
                            lemma_only_source(acc, id, id);
                            assert(Seq::<DependencyView>::empty() + acc =~= acc);
                        } else {
                            assert(y != id);
                            lemma_filter_other_source(before.deps_m(), id, y);
                            lemma_only_source(acc, id, y);
                            assert(before.deps_m().filter(leaves(y)) + Seq::<DependencyView>::empty() =~= before.deps_m().filter(leaves(y)));
                        }
                    }
                }
                n = n + 1;
            }
            i = i + 1;
        }
        assert(pre.assets_m().subrange(0, pre.assets@.len() as int) =~= pre.assets_m());
        n
    }
}
} // verus!

verus! {

/// Name, path, type and size of one asset of a bundle.
#[derive(Debug)]
pub struct BundleAssetInfo {
    pub id: u64,
    pub file_name: String,
    pub relative_path: String,
    pub asset_type: AssetType,
    pub size_bytes: u64,
}

/// An asset with the assets it depends on, up to the bundle depth.
#[derive(Debug)]
pub struct BundlePreview {
    pub root_asset: BundleAssetInfo,
    pub dependencies: Vec<BundleAssetInfo>,
    pub total_size_bytes: u128,
}

/// Depth of the transitive expansion of a bundle.
pub const BUNDLE_DEPTH: usize = 5;

/// The summary of one asset for a bundle.
pub open spec fn info_matches(b: BundleAssetInfo, a: AssetView) -> bool {
    &&& b.id == a.id
    &&& b.file_name@ == a.file_name
    &&& b.relative_path@ == a.relative_path
    &&& b.asset_type == a.asset_type
    &&& b.size_bytes == a.size_bytes
}

/// The asset with id `id`.
pub open spec fn asset_with(s: Seq<AssetView>, id: u64) -> AssetView {
    s[choose|i: int| 0 <= i < s.len() && s[i].id == id]
}

/// Sum of the sizes of the assets with the given ids.
pub open spec fn size_sum(s: Seq<AssetView>, ids: Seq<u64>) -> int
    decreases ids.len(),
{
    if ids.len() == 0 {
        0
    } else {
        size_sum(s, ids.drop_last()) + asset_with(s, ids.last()).size_bytes
    }
}

proof fn lemma_reached_is_asset(store: &Store, root: u64, n: u64, k: int)
    requires
        store.wf(),
        n != root,
        reach(store.deps_m(), root, n, k),
    ensures
        exists|i: int| 0 <= i < store.assets_m().len() && store.assets_m()[i].id == n,
{
    let g = store.deps_m();
    let e = choose|e: int| 0 <= e < g.len() && (#[trigger] g[e]).target_asset_id == n && reach(g, root, g[e].source_asset_id, k - 1);
    assert(store.edge_ok(store.deps@[e]@));
    let (a, b) = choose|a: int, b: int|
        0 <= a < store.assets@.len() && 0 <= b < store.assets@.len() && store.assets@[a].id
            == store.deps@[e]@.source_asset_id && store.assets@[b].id == store.deps@[e]@.target_asset_id
            && store.assets@[a].project_id == store.assets@[b].project_id;
    assert(store.assets_m()[b].id == n);
}

pub proof fn lemma_found_is_chosen(store: &Store, a: Asset, id: u64)
    requires
        store.wf(),
        a.id == id,
        exists|i: int| 0 <= i < store.assets@.len() && store.assets@[i]@ == a@,
    ensures
        asset_with(store.assets_m(), id) == a@,
{
    let s = store.assets_m();
    let i = choose|i: int| 0 <= i < store.assets@.len() && store.assets@[i]@ == a@;
    assert(s[i].id == id);
    let c = choose|c: int| 0 <= c < s.len() && s[c].id == id;
    if c != i {
        assert(store.assets@[c].id != store.assets@[i].id);
    }
}

fn info_of(a: &Asset) -> (r: BundleAssetInfo)
    ensures
        info_matches(r, a@),
{
    BundleAssetInfo {
        id: a.id,
        file_name: a.file_name.clone(),
        relative_path: a.relative_path.clone(),
        asset_type: a.asset_type,
        size_bytes: a.size_bytes,
    }
}

/// The asset `id`, every asset it reaches along at most `BUNDLE_DEPTH` edges
/// (each once, without `id`, nearer ones first), and the sum of all their sizes.
pub fn get_bundle_preview(store: &Store, id: u64) -> (r: Result<BundlePreview, LibraryError>)
    requires
        store.wf(),
    ensures
        r is Err <==> !store.has_asset(id),
        r is Err ==> r == Err::<BundlePreview, LibraryError>(LibraryError::AssetNotFound(id)),
        r matches Ok(b) ==> exists|tree: Seq<u64>| {
            &&& tree.no_duplicates()
            &&& forall|n: u64| tree.contains(n) <==> n != id && reach(store.deps_m(), id, n, BUNDLE_DEPTH as int)
            &&& forall|i: int, j: int| 0 <= i < j < tree.len() ==> nearer(store.deps_m(), id, #[trigger] tree[i], #[trigger] tree[j])
            &&& info_matches(b.root_asset, asset_with(store.assets_m(), id))
            &&& b.dependencies@.len() == tree.len()
            &&& forall|k: int| 0 <= k < tree.len() ==> info_matches(#[trigger] b.dependencies@[k], asset_with(store.assets_m(), tree[k]))
            &&& b.total_size_bytes == asset_with(store.assets_m(), id).size_bytes + size_sum(store.assets_m(), tree)
        },
{
    let root = match store.get_asset(id) {
        Some(a) => a,
        None => return Err(LibraryError::AssetNotFound(id)),
    };
    let ghost s = store.assets_m();
    proof {
        lemma_found_is_chosen(store, root, id);
    }
    let ids = get_dependency_tree(store, id, BUNDLE_DEPTH);
    let ghost tree = ids@;
    proof {
        assert forall|m: int| 0 <= m < tree.len() implies store.has_asset(#[trigger] tree[m]) by {
            assert(tree.contains(tree[m]));
            lemma_reached_is_asset(store, id, tree[m], BUNDLE_DEPTH as int);
            let i = choose|i: int| 0 <= i < store.assets_m().len() && store.assets_m()[i].id == tree[m];
            assert(store.assets@[i].id == tree[m]);
        }
    }
    let mut deps: Vec<BundleAssetInfo> = Vec::new();
    let mut total: u128 = root.size_bytes as u128;
    let mut k: usize = 0;
    while k < ids.len()
        invariant
            store.wf(),
            s == store.assets_m(),
            tree == ids@,
            forall|m: int| 0 <= m < tree.len() ==> store.has_asset(#[trigger] tree[m]),
            k <= ids@.len(),
            deps@.len() == k,
            forall|m: int| 0 <= m < k ==> info_matches(#[trigger] deps@[m], asset_with(s, tree[m])),
            total == root.size_bytes + size_sum(s, tree.subrange(0, k as int)),
            total <= (k + 1) * 0xFFFF_FFFF_FFFF_FFFFu128,
        decreases ids@.len() - k,
    {
        let t = ids[k];
        assert(store.has_asset(tree[k as int]));
        let a = match store.get_asset(t) {
            Some(a) => a,
            None => {
                return Err(LibraryError::AssetNotFound(t));
            },
        };
        proof {
            lemma_found_is_chosen(store, a, t);
            assert(tree.subrange(0, k as int + 1).drop_last() =~= tree.subrange(0, k as int));
            assert((k + 1) * 0xFFFF_FFFF_FFFF_FFFFu128 + 0xFFFF_FFFF_FFFF_FFFFu128 == (k + 2) * 0xFFFF_FFFF_FFFF_FFFFu128) by (nonlinear_arith);
            assert((k + 2) * 0xFFFF_FFFF_FFFF_FFFFu128 <= 0x1_0000_0000_0000_0001u128 * 0xFFFF_FFFF_FFFF_FFFFu128) by (nonlinear_arith)
                requires k < 0xFFFF_FFFF_FFFF_FFFFu128;
        }
        total = total + a.size_bytes as u128;
        deps.push(info_of(&a));
        k = k + 1;
    }
    assert(tree.subrange(0, tree.len() as int) =~= tree);
    let b = BundlePreview { root_asset: info_of(&root), dependencies: deps, total_size_bytes: total };
    assert(info_matches(b.root_asset, asset_with(s, id)));
    Ok(b)
}

} // verus!
