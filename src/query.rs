//! Listing queries over the index: search, type filter, order and pages;
//! per-type counts; the baseline that change detection compares against.
use vstd::prelude::*;
use crate::model::{Asset, AssetType, AssetView, TypeCount, assets_view, lemma_filter_step};
use crate::store::{ExistingFile, Store, in_project};
use crate::text::{chars_of, contains_exec, contains_text, fold_all, fold_text, text_le};

verus! {

broadcast use vstd::seq_lib::group_to_multiset_ensures;

/// Models of (relative path, position) pairs.
pub open spec fn pairs_view(v: Seq<(String, usize)>) -> Seq<(Seq<char>, usize)> {
    v.map_values(|p: (String, usize)| (p.0@, p.1))
}

/// The pairs in ascending order, by path and then by position.
pub uninterp spec fn path_order(s: Seq<(Seq<char>, usize)>) -> Seq<(Seq<char>, usize)>;

/// Relies on slice::sort: orders the pairs ascending by `String`'s order
/// (code point order of the text), then by position; the result is a
/// rearrangement of the input and depends on the input alone.
#[verifier::external_body]
fn sort_pairs(v: &mut Vec<(String, usize)>)
    ensures
        pairs_view(final(v)@) == path_order(pairs_view(old(v)@)),
        pairs_view(final(v)@).to_multiset() == pairs_view(old(v)@).to_multiset(),
        forall|i: int, j: int|
            0 <= i < j < final(v)@.len() ==> text_le(final(v)@[i].0@, final(v)@[j].0@),
{
    v.sort()
}

/// Whether an asset is listed for project `pid` under a folded search text and
/// a type filter: the search text occurs, ASCII case folded, in the file name
/// or the relative path; the type is one of the filter's.
pub open spec fn listed(
    a: AssetView,
    pid: u64,
    query: Option<Seq<char>>,
    types: Option<Seq<AssetType>>,
) -> bool {
    &&& a.project_id == pid
    &&& match query {
        None => true,
        Some(q) => contains_text(fold_text(a.file_name), fold_text(q)) || contains_text(
            fold_text(a.relative_path),
            fold_text(q),
        ),
    }
    &&& match types {
        None => true,
        Some(ts) => ts.contains(a.asset_type),
    }
}

/// (relative path, position) of the listed assets among the first `n`.
pub open spec fn candidates(
    s: Seq<AssetView>,
    n: nat,
    pid: u64,
    query: Option<Seq<char>>,
    types: Option<Seq<AssetType>>,
) -> Seq<(Seq<char>, usize)>
    decreases n,
{
    if n == 0 || n > s.len() {
        Seq::empty()
    } else {
        let prev = candidates(s, (n - 1) as nat, pid, query, types);
        if listed(s[n - 1], pid, query, types) {
            prev.push((s[n - 1].relative_path, (n - 1) as usize))
        } else {
            prev
        }
    }
}

/// Page `page` of `l`, pages holding `size` items each.
pub open spec fn page_of<A>(l: Seq<A>, page: nat, size: nat) -> Seq<A> {
    if size == 0 {
        Seq::empty()
    } else {
        let start = if page * size < l.len() {
            page * size
        } else {
            l.len() as nat
        };
        let end = if start + size < l.len() {
            start + size
        } else {
            l.len() as nat
        };
        l.subrange(start as int, end as int)
    }
}

/// Pages `0 .. k` of `l`, one after another.
pub open spec fn pages_upto<A>(l: Seq<A>, size: nat, k: nat) -> Seq<A>
    decreases k,
{
    if k == 0 {
        Seq::empty()
    } else {
        pages_upto(l, size, (k - 1) as nat) + page_of(l, (k - 1) as nat, size)
    }
}

proof fn lemma_candidates_bound(
    s: Seq<AssetView>,
    n: nat,
    pid: u64,
    query: Option<Seq<char>>,
    types: Option<Seq<AssetType>>,
)
    requires
        n <= s.len(),
        s.len() <= usize::MAX,
    ensures
        forall|k: int|
            0 <= k < candidates(s, n, pid, query, types).len() ==> {
                let c = #[trigger] candidates(s, n, pid, query, types)[k];
                &&& c.1 < n
                &&& c.0 == s[c.1 as int].relative_path
                &&& listed(s[c.1 as int], pid, query, types)
            },
        candidates(s, n, pid, query, types).len() == s.subrange(0, n as int).filter(listed_pred(pid, query, types)).len(),
    decreases n,
{
    if n > 0 {
        lemma_candidates_bound(s, (n - 1) as nat, pid, query, types);
        lemma_filter_step(s, n - 1, listed_pred(pid, query, types));
        let prev = candidates(s, (n - 1) as nat, pid, query, types);
        let c = candidates(s, n, pid, query, types);
        assert forall|k: int| 0 <= k < c.len() implies {
            let e = #[trigger] c[k];
            &&& e.1 < n
            &&& e.0 == s[e.1 as int].relative_path
            &&& listed(s[e.1 as int], pid, query, types)
        } by {
            if k < prev.len() {
                assert(c[k] == prev[k]);
                assert(prev[k].1 < n - 1);
            } else {
                assert(c[k] == (s[n - 1].relative_path, (n - 1) as usize));
            }
        }
    } else {
        assert(s.subrange(0, 0).filter(listed_pred(pid, query, types)) =~= Seq::<AssetView>::empty()) by {
            reveal(Seq::filter);
        }
    }
}

/// The assets that `listed` keeps.
pub open spec fn listed_pred(
    pid: u64,
    query: Option<Seq<char>>,
    types: Option<Seq<AssetType>>,
) -> spec_fn(AssetView) -> bool {
    |a: AssetView| listed(a, pid, query, types)
}

proof fn lemma_pages_prefix<A>(l: Seq<A>, size: nat, k: nat)
    requires
        size > 0,
    ensures
        pages_upto(l, size, k) == l.subrange(
            0,
            if k * size < l.len() {
                (k * size) as int
            } else {
                l.len() as int
            },
        ),
    decreases k,
{
    if k > 0 {
        let km = (k - 1) as nat;
        lemma_pages_prefix(l, size, km);
        assert(km * size + size == k * size) by (nonlinear_arith)
            requires
                km + 1 == k,
        ;
        let a = if km * size < l.len() {
            (km * size) as int
        } else {
            l.len() as int
        };
        let b = if k * size < l.len() {
            (k * size) as int
        } else {
            l.len() as int
        };
        assert(page_of(l, km, size) == l.subrange(a, b));
        assert(l.subrange(0, a) + l.subrange(a, b) =~= l.subrange(0, b));
    } else {
        assert(0 * size == 0);
        assert(l.subrange(0, 0) =~= Seq::<A>::empty());
    }
}

/// Pagination loses and repeats nothing: pages `0 .. k` of a listing, put
/// one after another, give the whole listing once `k` pages of `size` cover it.
pub proof fn law_pages_cover<A>(l: Seq<A>, size: nat, k: nat)
    requires
        size > 0,
        k * size >= l.len(),
    ensures
        pages_upto(l, size, k) == l,
{
    lemma_pages_prefix(l, size, k);
    assert(l.subrange(0, l.len() as int) =~= l);
}

/// The assets of project `pid` whose type is `t`.
pub open spec fn of_type(pid: u64, t: AssetType) -> spec_fn(AssetView) -> bool {
    |a: AssetView| a.project_id == pid && a.asset_type == t
}

/// Every asset type, in a fixed order.
pub open spec fn all_types() -> Seq<AssetType> {
    seq![
        AssetType::Texture,
        AssetType::Material,
        AssetType::Model,
        AssetType::Script,
        AssetType::Shader,
        AssetType::Prefab,
        AssetType::Scene,
        AssetType::Audio,
        AssetType::Animation,
        AssetType::Font,
        AssetType::Config,
        AssetType::Other,
    ]
}

/// For each type of `ts` that occurs in project `pid`, its number of assets.
pub open spec fn tally(s: Seq<AssetView>, pid: u64, ts: Seq<AssetType>) -> Seq<TypeCount>
    decreases ts.len(),
{
    if ts.len() == 0 {
        Seq::empty()
    } else {
        let prev = tally(s, pid, ts.drop_last());
        let t = ts.last();
        let n = s.filter(of_type(pid, t)).len();
        if n > 0 {
            prev.push(TypeCount { asset_type: t, count: n as u64 })
        } else {
            prev
        }
    }
}

/// The listing order of `get_assets`, before pagination.
pub open spec fn listing(
    s: Seq<AssetView>,
    pid: u64,
    query: Option<Seq<char>>,
    types: Option<Seq<AssetType>>,
) -> Seq<AssetView> {
    path_order(candidates(s, s.len(), pid, query, types)).map_values(
        |p: (Seq<char>, usize)| s[p.1 as int],
    )
}

/// Options of strings, as texts.
pub open spec fn query_view(q: Option<String>) -> Option<Seq<char>> {
    match q {
        Some(s) => Some(s@),
        None => None,
    }
}

/// Options of type lists, as sequences.
pub open spec fn types_view(t: Option<Vec<AssetType>>) -> Option<Seq<AssetType>> {
    match t {
        Some(v) => Some(v@),
        None => None,
    }
}

fn type_in(ts: &Vec<AssetType>, t: AssetType) -> (r: bool)
    ensures
        r == ts@.contains(t),
{
    let mut i: usize = 0;
    while i < ts.len()
        invariant
            i <= ts@.len(),
            forall|j: int| 0 <= j < i ==> ts@[j] != t,
        decreases ts@.len() - i,
    {
        if ts[i] == t {
            return true;
        }
        i = i + 1;
    }
    false
}

impl Store {
    fn is_listed(
        &self,
        i: usize,
        pid: u64,
        query: &Option<Vec<char>>,
        types: &Option<Vec<AssetType>>,
    ) -> (r: bool)
        requires
            i < self.assets@.len(),
        ensures
            r == listed(
                self.assets_m()[i as int],
                pid,
                match query {
                    Some(q) => Some(q@),
                    None => None,
                },
                types_view(*types),
            ),
    {
        let a = &self.assets[i];
        if a.project_id != pid {
            return false;
        }
        let type_ok = match types {
            None => true,
            Some(ts) => type_in(ts, a.asset_type),
        };
        if !type_ok {
            return false;
        }
        match query {
            None => true,
            Some(q) => {
                let fq = fold_all(q);
                let name = fold_all(&chars_of(a.file_name.as_str()));
                if contains_exec(&name, &fq) {
                    return true;
                }
                let rel = fold_all(&chars_of(a.relative_path.as_str()));
                contains_exec(&rel, &fq)
            },
        }
    }

    /// One page of the assets of project `pid` that match the search text
    /// (ASCII case-insensitive, in the file name or the relative path) and the
    /// type filter, ordered by relative path; with the number of all matches.
    pub fn get_assets(
        &self,
        pid: u64,
        search: &Option<String>,
        types: &Option<Vec<AssetType>>,
        page: usize,
        page_size: usize,
    ) -> (r: (Vec<Asset>, usize))
        ensures
            r.1 == listing(self.assets_m(), pid, query_view(*search), types_view(*types)).len(),
            r.1 == self.assets_m().filter(listed_pred(pid, query_view(*search), types_view(*types))).len(),
            ({
                let l = listing(self.assets_m(), pid, query_view(*search), types_view(*types));
                &&& forall|k: int| 0 <= k < l.len() ==> listed(#[trigger] l[k], pid, query_view(*search), types_view(*types))
                &&& forall|i: int, j: int| 0 <= i < j < l.len() ==> text_le(l[i].relative_path, l[j].relative_path)
            }),
            forall|k: int| 0 <= k < r.0@.len() ==> listed((#[trigger] r.0@[k])@, pid, query_view(*search), types_view(*types)),
            assets_view(r.0@) == page_of(
                listing(self.assets_m(), pid, query_view(*search), types_view(*types)),
                page as nat,
                page_size as nat,
            ),
    {
        let ghost s = self.assets_m();
        let ghost qv = query_view(*search);
        let ghost tv = types_view(*types);
        let query: Option<Vec<char>> = match search {
            Some(q) => Some(chars_of(q.as_str())),
            None => None,
        };
        assert(match query {
            Some(q) => Some(q@),
            None => None::<Seq<char>>,
        } == qv);
        let mut pairs: Vec<(String, usize)> = Vec::new();
        let mut i: usize = 0;
        while i < self.assets.len()
            invariant
                s == self.assets_m(),
                qv == match query {
                    Some(q) => Some(q@),
                    None => None,
                },
                tv == types_view(*types),
                i <= self.assets@.len(),
                pairs_view(pairs@) == candidates(s, i as nat, pid, qv, tv),
            decreases self.assets@.len() - i,
        {
            if self.is_listed(i, pid, &query, types) {
                pairs.push((self.assets[i].relative_path.clone(), i));
            }
            i = i + 1;
            assert(pairs_view(pairs@) =~= candidates(s, i as nat, pid, qv, tv));
        }
        proof {
            assert(s.len() == self.assets@.len());
            lemma_candidates_bound(s, s.len(), pid, qv, tv);
            assert(s.subrange(0, s.len() as int) =~= s);
        }
        let ghost unsorted = pairs_view(pairs@);
        sort_pairs(&mut pairs);
        let total = pairs.len();
        let ghost l = listing(s, pid, qv, tv);
        assert(pairs_view(pairs@).to_multiset().len() == unsorted.to_multiset().len());
        assert(pairs_view(pairs@).len() == unsorted.len());
        assert(l.len() == total);
        assert(l =~= pairs_view(pairs@).map_values(|p: (Seq<char>, usize)| s[p.1 as int]));
        proof {
            assert(s.subrange(0, s.len() as int) =~= s);
            assert forall|k: int| 0 <= k < l.len() implies {
                &&& listed(#[trigger] l[k], pid, qv, tv)
                &&& pairs_view(pairs@)[k].0 == l[k].relative_path
            } by {
                let x = pairs_view(pairs@)[k];
                assert(pairs_view(pairs@).contains(x));
                assert(pairs_view(pairs@).to_multiset().count(x) > 0);
                assert(unsorted.to_multiset().count(x) > 0);
                let m = choose|m: int| 0 <= m < unsorted.len() && unsorted[m] == x;
                assert(unsorted[m].1 < s.len());
            }
            assert forall|i: int, j: int| 0 <= i < j < l.len() implies text_le(l[i].relative_path, l[j].relative_path) by {
                assert(pairs_view(pairs@)[i].0 == l[i].relative_path);
                assert(pairs_view(pairs@)[j].0 == l[j].relative_path);
                assert(text_le(pairs@[i].0@, pairs@[j].0@));
            }
        }
        let mut out: Vec<Asset> = Vec::new();
        if page_size == 0 {
            assert(assets_view(out@) =~= page_of(l, page as nat, page_size as nat));
            assert(out@ =~= Seq::<Asset>::empty());
            return (out, total);
        }
        let start: usize = if page > total / page_size {
            total
        } else {
            assert(page * page_size <= total) by (nonlinear_arith)
                requires
                    page <= total / page_size,
                    page_size > 0,
            ;
            if page * page_size < total {
                page * page_size
            } else {
                total
            }
        };
        assert(start as int == if page * page_size < total {
            page * page_size
        } else {
            total as int
        }) by (nonlinear_arith)
            requires
                page_size > 0,
                page > total / page_size ==> start == total,
                page <= total / page_size ==> start == if page * page_size < total {
                    page * page_size
                } else {
                    total as int
                },
        ;
        let end: usize = if page_size < total - start {
            start + page_size
        } else {
            total
        };
        let mut k: usize = start;
        while k < end
            invariant
                s == self.assets_m(),
                l == listing(s, pid, qv, tv),
                pairs_view(pairs@) == path_order(unsorted),
                pairs_view(pairs@).to_multiset() == unsorted.to_multiset(),
                unsorted == candidates(s, s.len(), pid, qv, tv),
                forall|m: int| 0 <= m < unsorted.len() ==> (#[trigger] unsorted[m]).1 < s.len(),
                total == pairs@.len(),
                l.len() == total,
                qv == query_view(*search),
                tv == types_view(*types),
                forall|m: int| 0 <= m < l.len() ==> listed(#[trigger] l[m], pid, qv, tv),
                start <= k <= end <= total,
                assets_view(out@) == l.subrange(start as int, k as int),
            decreases end - k,
        {
            let p = pairs[k].1;
            proof {
                let x = pairs_view(pairs@)[k as int];
                assert(pairs_view(pairs@).contains(x));
                assert(pairs_view(pairs@).to_multiset().count(x) > 0);
                assert(unsorted.to_multiset().count(x) > 0);
                assert(unsorted.contains(x));
                let m = choose|m: int| 0 <= m < unsorted.len() && unsorted[m] == x;
                assert(unsorted[m].1 < s.len());
                assert(l[k as int] == s[p as int]);
            }
            let c = self.assets[p].copy();
            assert(c@ == l[k as int]);
            let ghost prev = out@;
            out.push(c);
            assert(assets_view(out@) =~= assets_view(prev).push(l[k as int]));
            assert(l.subrange(start as int, k as int + 1) =~= l.subrange(start as int, k as int).push(l[k as int]));
            k = k + 1;
            assert(assets_view(out@) =~= l.subrange(start as int, k as int));
        }
        assert forall|m: int| 0 <= m < out@.len() implies listed((#[trigger] out@[m])@, pid, qv, tv) by {
            assert(assets_view(out@)[m] == out@[m]@);
            assert(l.subrange(start as int, k as int)[m] == l[start + m]);
        }
        (out, total)
    }

    fn count_type(&self, pid: u64, t: AssetType) -> (r: usize)
        ensures
            r == self.assets_m().filter(of_type(pid, t)).len(),
    {
        let mut n: usize = 0;
        let mut i: usize = 0;
        while i < self.assets.len()
            invariant
                i <= self.assets@.len(),
                n == self.assets_m().subrange(0, i as int).filter(of_type(pid, t)).len(),
                n <= i,
            decreases self.assets@.len() - i,
        {
            proof {
                lemma_filter_step(self.assets_m(), i as int, of_type(pid, t));
            }
            if self.assets[i].project_id == pid && self.assets[i].asset_type == t {
                n = n + 1;
            }
            i = i + 1;
        }
        assert(self.assets_m().subrange(0, self.assets@.len() as int) =~= self.assets_m());
        n
    }

    /// For each type that occurs in project `pid`, in the order of
    /// `all_types`, the number of its assets.
    pub fn get_type_counts(&self, pid: u64) -> (r: Vec<TypeCount>)
        ensures
            r@ == tally(self.assets_m(), pid, all_types()),
    {
        let kinds: Vec<AssetType> = vec![
            AssetType::Texture,
            AssetType::Material,
            AssetType::Model,
            AssetType::Script,
            AssetType::Shader,
            AssetType::Prefab,
            AssetType::Scene,
            AssetType::Audio,
            AssetType::Animation,
            AssetType::Font,
            AssetType::Config,
            AssetType::Other,
        ];
        assert(kinds@ =~= all_types());
        let mut out: Vec<TypeCount> = Vec::new();
        let mut i: usize = 0;
        while i < kinds.len()
            invariant
                i <= kinds@.len(),
                out@ == tally(self.assets_m(), pid, kinds@.subrange(0, i as int)),
            decreases kinds@.len() - i,
        {
            let t = kinds[i];
            let n = self.count_type(pid, t);
            assert(kinds@.subrange(0, i as int + 1).drop_last() =~= kinds@.subrange(0, i as int));
            if n > 0 {
                out.push(TypeCount { asset_type: t, count: n as u64 });
            }
            i = i + 1;
        }
        assert(kinds@.subrange(0, kinds@.len() as int) =~= kinds@);
        out
    }

    /// Path, size, modification time and id of each asset of project `pid`.
    pub fn get_existing_asset_info(&self, pid: u64) -> (r: Vec<ExistingFile>)
        ensures
            r@.len() == self.assets_m().filter(in_project(pid)).len(),
            forall|k: int|
                0 <= k < r@.len() ==> {
                    let a = #[trigger] self.assets_m().filter(in_project(pid))[k];
                    &&& r@[k].absolute_path@ == a.absolute_path
                    &&& r@[k].size_bytes == a.size_bytes
                    &&& r@[k].modified_time == a.modified_time
                    &&& r@[k].id == a.id
                },
    {
        let mut out: Vec<ExistingFile> = Vec::new();
        let mut i: usize = 0;
        while i < self.assets.len()
            invariant
                i <= self.assets@.len(),
                out@.len() == self.assets_m().subrange(0, i as int).filter(in_project(pid)).len(),
                forall|k: int|
                    0 <= k < out@.len() ==> {
                        let a = #[trigger] self.assets_m().subrange(0, i as int).filter(
                            in_project(pid),
                        )[k];
                        &&& out@[k].absolute_path@ == a.absolute_path
                        &&& out@[k].size_bytes == a.size_bytes
                        &&& out@[k].modified_time == a.modified_time
                        &&& out@[k].id == a.id
                    },
            decreases self.assets@.len() - i,
        {
            proof {
                lemma_filter_step(self.assets_m(), i as int, in_project(pid));
            }
            let a = &self.assets[i];
            if a.project_id == pid {
                out.push(
                    ExistingFile {
                        absolute_path: a.absolute_path.clone(),
                        size_bytes: a.size_bytes,
                        modified_time: a.modified_time,
                        id: a.id,
                    },
                );
            }
            i = i + 1;
        }
        assert(self.assets_m().subrange(0, self.assets@.len() as int) =~= self.assets_m());
        out
    }
}

} // verus!
