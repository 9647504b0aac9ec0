//! Collection of a document's resources into a table keyed by each
//! resource's own resolved URL.
//!
//! [`collect`] walks the document tree in pre-order, resolves every
//! discovered reference against the base URL, deduplicates the resolved
//! URLs (fetching the same URL twice within one pass is wasteful), fetches
//! each one through the [`Fetcher`], and builds a [`Resources`] table from
//! the successful outcomes. A failed individual fetch drops that URL from
//! the table and nothing more: collection as a whole always succeeds
//! structurally, reporting a partial table.

use vstd::prelude::*;

use crate::dom::{discover_refs, strs_view, subtree_refs, Dom};
use crate::cache::{get_model, sweep_model, EntryModel};
use crate::fetcher::{
    chain_outcome, file_ok_at, http_ok_no_redirect_at, synthetic_hit, Data, Error, Fetcher,
    HttpResponse,
};
use crate::urls::{join_url, scheme_of, url_join, ResourceUrl, Scheme};

verus! {

/// One fetched resource: its own resolved URL — never the URL of the
/// document that referenced it — and the outcome holding its bytes.
pub struct Resource {
    pub url: ResourceUrl,
    pub data: Data,
}

/// The table of one page load's fetched resources, keyed by each
/// resource's own resolved URL.
pub struct Resources {
    resources: Vec<Resource>,
}

/// The map a resource list denotes: URL text to body bytes.
pub closed spec fn res_map(s: Seq<Resource>) -> Map<Seq<char>, Seq<u8>>
    decreases s.len(),
{
    if s.len() == 0 {
        Map::empty()
    } else {
        res_map(s.drop_last()).insert(s.last().url@, s.last().data.spec_body())
    }
}

/// A key occurs in the resource list.
pub closed spec fn res_key_in(s: Seq<Resource>, k: Seq<char>) -> bool {
    exists|i: int| 0 <= i < s.len() && s[i].url@ == k
}

/// All URLs in the resource list are pairwise distinct.
pub closed spec fn res_keys_distinct(s: Seq<Resource>) -> bool {
    forall|i: int, j: int| 0 <= i < j < s.len() ==> s[i].url@ != s[j].url@
}

proof fn lemma_res_map_membership(s: Seq<Resource>, k: Seq<char>)
    ensures
        res_map(s).contains_key(k) <==> res_key_in(s, k),
    decreases s.len(),
{
    if s.len() > 0 {
        lemma_res_map_membership(s.drop_last(), k);
        if s.last().url@ == k {
            assert(s[s.len() - 1].url@ == k);
        } else {
            if res_key_in(s.drop_last(), k) {
                let i = choose|i: int| 0 <= i < s.drop_last().len() && s.drop_last()[i].url@ == k;
                assert(s[i].url@ == k);
            }
            if res_key_in(s, k) {
                let i = choose|i: int| 0 <= i < s.len() && s[i].url@ == k;
                assert(i < s.len() - 1);
                assert(s.drop_last()[i].url@ == k);
            }
        }
    }
}

proof fn lemma_res_map_lookup(s: Seq<Resource>, i: int)
    requires
        res_keys_distinct(s),
        0 <= i < s.len(),
    ensures
        res_map(s).contains_key(s[i].url@),
        res_map(s)[s[i].url@] == s[i].data.spec_body(),
    decreases s.len(),
{
    lemma_res_map_membership(s, s[i].url@);
    if i < s.len() - 1 {
        assert(s[i].url@ != s.last().url@);
        assert forall|p: int, q: int| 0 <= p < q < s.drop_last().len() implies s.drop_last()[p].url@
            != s.drop_last()[q].url@ by {
            assert(s[p].url@ != s[q].url@);
        }
        assert(s.drop_last()[i] == s[i]);
        lemma_res_map_lookup(s.drop_last(), i);
    }
}

proof fn lemma_res_map_push(s: Seq<Resource>, r: Resource)
    ensures
        res_map(s.push(r)) == res_map(s).insert(r.url@, r.data.spec_body()),
{
    assert(s.push(r).drop_last() =~= s);
    assert(s.push(r).last() == r);
}

impl View for Resources {
    type V = Map<Seq<char>, Seq<u8>>;

    closed spec fn view(&self) -> Map<Seq<char>, Seq<u8>> {
        res_map(self.resources@)
    }
}

impl Resources {
    /// The resource URLs are pairwise distinct.
    pub closed spec fn wf(self) -> bool {
        res_keys_distinct(self.resources@)
    }

    /// How many resources the table holds.
    pub closed spec fn spec_len(self) -> nat {
        self.resources@.len()
    }

    pub fn new() -> (r: Resources)
        ensures
            r.wf(),
            r@ == Map::<Seq<char>, Seq<u8>>::empty(),
            r.spec_len() == 0,
    {
        Resources { resources: Vec::new() }
    }

    pub fn len(&self) -> (n: usize)
        ensures
            n == self.spec_len(),
    {
        self.resources.len()
    }

    /// Looks a resource up by its resolved URL.
    pub fn get(&self, url: &ResourceUrl) -> (r: Option<&Resource>)
        requires
            self.wf(),
        ensures
            match r {
                Some(res) => self@.contains_key(url@) && res.url@ == url@
                    && res.data.spec_body() == self@[url@],
                None => !self@.contains_key(url@),
            },
    {
        let mut i: usize = 0;
        while i < self.resources.len()
            invariant
                self.wf(),
                0 <= i <= self.resources@.len(),
                forall|j: int| 0 <= j < i ==> self.resources@[j].url@ != url@,
            decreases self.resources@.len() - i,
        {
            if self.resources[i].url.text == url.text {
                proof {
                    lemma_res_map_lookup(self.resources@, i as int);
                }
                return Some(&self.resources[i]);
            }
            i += 1;
        }
        proof {
            lemma_res_map_membership(self.resources@, url@);
        }
        None
    }

    /// Adds a resource under a URL the table does not hold yet.
    fn insert_new(&mut self, res: Resource)
        requires
            old(self).wf(),
            !old(self)@.contains_key(res.url@),
        ensures
            final(self).wf(),
            final(self)@ == old(self)@.insert(res.url@, res.data.spec_body()),
            final(self).spec_len() == old(self).spec_len() + 1,
    {
        proof {
            lemma_res_map_membership(self.resources@, res.url@);
            lemma_res_map_push(self.resources@, res);
        }
        let ghost s0 = self.resources@;
        let ghost key = res.url@;
        self.resources.push(res);
        proof {
            assert forall|p: int, q: int| 0 <= p < q < self.resources@.len() implies self
                .resources@[p].url@ != self.resources@[q].url@ by {
                if q == self.resources@.len() - 1 {
                    assert(self.resources@[p] == s0[p]);
                    if self.resources@[p].url@ == key {
                        assert(res_key_in(s0, key));
                    }
                } else {
                    assert(self.resources@[p] == s0[p]);
                    assert(self.resources@[q] == s0[q]);
                }
            }
        }
    }
}

/// The texts of a vector of URLs.
pub open spec fn urls_view(v: Seq<ResourceUrl>) -> Seq<Seq<char>> {
    v.map_values(|u: ResourceUrl| u@)
}

/// The fetch schedule a reference list produces: each reference resolved
/// against the base, in discovery order, skipping references that fail to
/// resolve and URLs already scheduled.
pub open spec fn spec_schedule(base: Seq<char>, refs: Seq<Seq<char>>) -> Seq<Seq<char>>
    decreases refs.len(),
{
    if refs.len() == 0 {
        Seq::empty()
    } else {
        let rest = spec_schedule(base, refs.drop_last());
        match url_join(base, refs.last()) {
            Some(u) => if rest.contains(u) {
                rest
            } else {
                rest.push(u)
            },
            None => rest,
        }
    }
}

/// The scheduled URL texts contain `u`.
fn urls_contain(v: &Vec<ResourceUrl>, u: &ResourceUrl) -> (b: bool)
    ensures
        b == urls_view(v@).contains(u@),
{
    let mut i: usize = 0;
    while i < v.len()
        invariant
            0 <= i <= v@.len(),
            forall|j: int| 0 <= j < i ==> v@[j]@ != u@,
        decreases v@.len() - i,
    {
        if v[i].text == u.text {
            proof {
                assert(urls_view(v@)[i as int] == u@);
            }
            return true;
        }
        i += 1;
    }
    proof {
        if urls_view(v@).contains(u@) {
            let j = choose|j: int| 0 <= j < urls_view(v@).len() && urls_view(v@)[j] == u@;
            assert(v@[j]@ == u@);
        }
    }
    false
}

/// Resolves each reference against `base` and deduplicates the resolved
/// URLs, keeping first-occurrence order.
pub fn schedule(base: &ResourceUrl, refs: &Vec<String>) -> (r: Vec<ResourceUrl>)
    ensures
        urls_view(r@) == spec_schedule(base@, strs_view(refs@)),
{
    let mut out: Vec<ResourceUrl> = Vec::new();
    let mut k: usize = 0;
    proof {
        assert(strs_view(refs@).take(0) =~= Seq::<Seq<char>>::empty());
        assert(urls_view(out@) =~= Seq::<Seq<char>>::empty());
    }
    while k < refs.len()
        invariant
            0 <= k <= refs@.len(),
            urls_view(out@) == spec_schedule(base@, strs_view(refs@).take(k as int)),
        decreases refs@.len() - k,
    {
        let ghost taken = strs_view(refs@).take(k as int);
        let ghost taken1 = strs_view(refs@).take(k as int + 1);
        proof {
            assert(taken1.drop_last() =~= taken);
            assert(taken1.last() == refs@[k as int]@);
        }
        let joined = join_url(base, refs[k].as_str());
        match joined {
            Some(u) => {
                let is_dup = urls_contain(&out, &u);
                let ghost uv = u@;
                if !is_dup {
                    out.push(u);
                    proof {
                        assert(urls_view(out@) =~= spec_schedule(base@, taken).push(uv));
                    }
                }
            },
            None => {},
        }
        k += 1;
    }
    proof {
        assert(strs_view(refs@).take(refs@.len() as int) =~= strs_view(refs@));
    }
    out
}

/// Two references to the identical resolved URL within one document
/// schedule exactly one fetch task: the schedule never repeats a URL, and
/// every reference that resolves at all is scheduled once.
pub proof fn lemma_schedule_dedup(base: Seq<char>, refs: Seq<Seq<char>>)
    ensures
        forall|p: int, q: int|
            0 <= p < q < spec_schedule(base, refs).len() ==> spec_schedule(base, refs)[p]
                != spec_schedule(base, refs)[q],
        forall|k: int|
            0 <= k < refs.len() && url_join(base, refs[k]) is Some ==> spec_schedule(
                base,
                refs,
            ).contains(url_join(base, refs[k]).unwrap()),
    decreases refs.len(),
{
    if refs.len() > 0 {
        lemma_schedule_dedup(base, refs.drop_last());
        let rest = spec_schedule(base, refs.drop_last());
        let whole = spec_schedule(base, refs);
        assert forall|p: int, q: int| 0 <= p < q < whole.len() implies whole[p] != whole[q] by {
            if q < rest.len() {
                assert(rest[p] != rest[q]);
            } else {
                assert(whole == rest.push(whole.last()));
                assert(!rest.contains(whole.last()));
                assert(whole[p] == rest[p]);
                if whole[p] == whole[q] {
                    assert(rest.contains(whole[q]));
                }
            }
        }
        assert forall|k: int|
            0 <= k < refs.len() && url_join(base, refs[k]) is Some implies whole.contains(
            url_join(base, refs[k]).unwrap()) by {
            if k < refs.len() - 1 {
                assert(refs.drop_last()[k] == refs[k]);
                let u = url_join(base, refs[k]).unwrap();
                assert(rest.contains(u));
                let i = choose|i: int| 0 <= i < rest.len() && rest[i] == u;
                if whole.len() > rest.len() {
                    assert(whole == rest.push(whole.last()));
                    assert(whole[i] == u);
                } else {
                    assert(whole == rest);
                }
            } else {
                let u = url_join(base, refs[k]).unwrap();
                if rest.contains(u) {
                    assert(whole == rest);
                } else {
                    assert(whole == rest.push(u));
                    assert(whole[whole.len() - 1] == u);
                }
            }
        }
    }
}

/// The URL's fetch is owed a success: a `file:` URL at which the file
/// reader only admits successes, or an `http:`/`https:` URL at which the
/// transport only admits non-redirecting successes.
pub open spec fn fetch_owed_at<F: Fn(String) -> Result<Vec<u8>, Error>, H: Fn(String) -> Result<
    HttpResponse,
    Error,
>>(f: F, h: H, k: Seq<char>) -> bool {
    (scheme_of(k) == Scheme::File && file_ok_at(f, k)) || ((scheme_of(k) == Scheme::Http
        || scheme_of(k) == Scheme::Https) && http_ok_no_redirect_at(h, k))
}

/// The table entry at `k` is a real outcome of fetching `k`: either a
/// terminal outcome of a redirect chain from `k` that the transports
/// admit, or the synthetic response of a hit on an entry the cache held
/// for `k` when collection began — in both cases with exactly the
/// entry's bytes.
pub open spec fn entry_from_fetch_at<F: Fn(String) -> Result<Vec<u8>, Error>, H: Fn(
    String,
) -> Result<HttpResponse, Error>>(
    f: F,
    h: H,
    cache0: Map<Seq<char>, EntryModel>,
    budget: u16,
    now: u64,
    k: Seq<char>,
    bytes: Seq<u8>,
) -> bool {
    exists|d: Data|
        {
            &&& #[trigger] d.spec_body() == bytes
            &&& (chain_outcome(f, h, k, budget, d) || (d matches Data::Http(resp) && get_model(
                cache0,
                k,
                now,
            ) matches Some(entry) && synthetic_hit(resp, entry.bytes)))
        }
}

/// Every entry of `cur` outside the `touched` keys already stood, with
/// the same content, in `cache0`.
pub open spec fn entries_untouched(
    cache0: Map<Seq<char>, EntryModel>,
    cur: Map<Seq<char>, EntryModel>,
    touched: Seq<Seq<char>>,
) -> bool {
    forall|kk: Seq<char>|
        !touched.contains(kk) && #[trigger] cur.contains_key(kk) ==> cache0.contains_key(kk)
            && cur[kk] == cache0[kk]
}

/// Walks the tree from `root`, fetches every scheduled resource through
/// `fetcher`, and returns the table of successful outcomes: one entry per
/// scheduled URL whose fetch succeeded, keyed by its own resolved URL and
/// holding exactly that fetch's bytes. Failed fetches are dropped
/// silently: collection itself always returns a table.
pub fn collect<F: Fn(String) -> Result<Vec<u8>, Error>, H: Fn(String) -> Result<
    HttpResponse,
    Error,
>>(
    fetcher: &mut Fetcher,
    base: &ResourceUrl,
    dom: &Dom,
    root: usize,
    max_redirects: u16,
    now: u64,
    file_read: &F,
    http_get: &H,
) -> (r: Resources)
    requires
        old(fetcher).wf(),
        dom.wf(),
        (root as int) < dom.nodes@.len(),
        forall|a: String| call_requires(*file_read, (a,)),
        forall|a: String| call_requires(*http_get, (a,)),
    ensures
        final(fetcher).wf(),
        r.wf(),
        forall|k: Seq<char>|
            r@.contains_key(k) ==> spec_schedule(base@, subtree_refs(*dom, root as int)).contains(
                k,
            ),
        forall|k: Seq<char>|
            spec_schedule(base@, subtree_refs(*dom, root as int)).contains(k) && fetch_owed_at(
                *file_read,
                *http_get,
                k,
            ) ==> r@.contains_key(k),
        forall|k: Seq<char>|
            r@.contains_key(k) ==> entry_from_fetch_at(
                *file_read,
                *http_get,
                old(fetcher).cache_model(),
                max_redirects,
                now,
                k,
                r@[k],
            ),
{
    let refs = discover_refs(dom, root);
    let sched = schedule(base, &refs);
    let ghost plan = spec_schedule(base@, subtree_refs(*dom, root as int));
    proof {
        lemma_schedule_dedup(base@, strs_view(refs@));
        assert(urls_view(sched@) == plan);
    }
    let mut table = Resources::new();
    let mut k: usize = 0;
    while k < sched.len()
        invariant
            fetcher.wf(),
            0 <= k <= sched@.len(),
            urls_view(sched@) == plan,
            forall|p: int, q: int|
                0 <= p < q < urls_view(sched@).len() ==> urls_view(sched@)[p] != urls_view(
                    sched@,
                )[q],
            table.wf(),
            forall|key: Seq<char>|
                table@.contains_key(key) ==> urls_view(sched@).take(k as int).contains(key),
            forall|j: int|
                0 <= j < k && fetch_owed_at(*file_read, *http_get, urls_view(sched@)[j])
                    ==> table@.contains_key(urls_view(sched@)[j]),
            forall|key: Seq<char>|
                table@.contains_key(key) ==> entry_from_fetch_at(
                    *file_read,
                    *http_get,
                    old(fetcher).cache_model(),
                    max_redirects,
                    now,
                    key,
                    table@[key],
                ),
            entries_untouched(
                old(fetcher).cache_model(),
                fetcher.cache_model(),
                urls_view(sched@).take(k as int),
            ),
            forall|a: String| call_requires(*file_read, (a,)),
            forall|a: String| call_requires(*http_get, (a,)),
        decreases sched@.len() - k,
    {
        let u = sched[k].duplicate();
        proof {
            assert(u@ == urls_view(sched@)[k as int]);
            assert(!urls_view(sched@).take(k as int).contains(urls_view(sched@)[k as int])) by {
                if urls_view(sched@).take(k as int).contains(urls_view(sched@)[k as int]) {
                    let j = choose|j: int|
                        0 <= j < k && urls_view(sched@).take(k as int)[j] == urls_view(
                            sched@,
                        )[k as int];
                    assert(urls_view(sched@)[j] == urls_view(sched@)[k as int]);
                }
            }
        }
        let ghost cache_pre = fetcher.cache_model();
        let ghost key_g = urls_view(sched@)[k as int];
        let outcome = fetcher.get_with_redirect(u, max_redirects, now, file_read, http_get);
        let ghost post_g = fetcher.cache_model();
        proof {
            let post = post_g;
            let key = key_g;
            assert forall|kk: Seq<char>| post.contains_key(kk) && kk != key implies cache_pre
                .contains_key(kk) && post[kk] == cache_pre[kk] by {
                if scheme_of(key) == Scheme::Http || scheme_of(key) == Scheme::Https {
                    match get_model(cache_pre, key, now) {
                        Some(_) => {},
                        None => {
                            match &outcome {
                                Ok(d) => {
                                    let m1 = cache_pre.remove(key).insert(
                                        key,
                                        EntryModel {
                                            bytes: d.spec_body(),
                                            created_at: now,
                                            ttl: fetcher.spec_ttl(),
                                        },
                                    );
                                    assert(post == sweep_model(m1, now));
                                    assert(m1.contains_key(kk) && post[kk] == m1[kk]);
                                    assert(m1[kk] == cache_pre[kk]);
                                },
                                Err(_) => {
                                    assert(post == cache_pre.remove(key));
                                },
                            }
                        },
                    }
                }
            }
        }
        match outcome {
            Ok(d) => {
                let u2 = sched[k].duplicate();
                proof {
                    if table@.contains_key(u2@) {
                        let j = choose|j: int|
                            0 <= j < urls_view(sched@).take(k as int).len() && urls_view(
                                sched@,
                            ).take(k as int)[j] == u2@;
                        assert(urls_view(sched@)[j] == urls_view(sched@)[k as int]);
                    }
                    assert(entry_from_fetch_at(
                        *file_read,
                        *http_get,
                        old(fetcher).cache_model(),
                        max_redirects,
                        now,
                        u2@,
                        d.spec_body(),
                    )) by {
                        let key = urls_view(sched@)[k as int];
                        if !chain_outcome(*file_read, *http_get, key, max_redirects, d) {
                            // the synthetic cache-hit case: the entry stood
                            // untouched since collection began
                            assert(get_model(cache_pre, key, now) matches Some(_));
                            assert(cache_pre.contains_key(key) && !cache_pre[key].spec_expired(
                                now,
                            ));
                            assert(entries_untouched(
                                old(fetcher).cache_model(),
                                cache_pre,
                                urls_view(sched@).take(k as int),
                            ));
                            assert(old(fetcher).cache_model().contains_key(key) && cache_pre[key]
                                == old(fetcher).cache_model()[key]);
                        }
                    }
                }
                table.insert_new(Resource { url: u2, data: d });
                proof {
                    assert forall|key: Seq<char>| table@.contains_key(key) implies urls_view(
                        sched@,
                    ).take(k as int + 1).contains(key) by {
                        if key == urls_view(sched@)[k as int] {
                            assert(urls_view(sched@).take(k as int + 1)[k as int] == key);
                        } else {
                            let j = choose|j: int|
                                0 <= j < urls_view(sched@).take(k as int).len() && urls_view(
                                    sched@,
                                ).take(k as int)[j] == key;
                            assert(urls_view(sched@).take(k as int + 1)[j] == key);
                        }
                    }
                }
            },
            Err(_) => {
                proof {
                    assert forall|key: Seq<char>| table@.contains_key(key) implies urls_view(
                        sched@,
                    ).take(k as int + 1).contains(key) by {
                        let j = choose|j: int|
                            0 <= j < urls_view(sched@).take(k as int).len() && urls_view(
                                sched@,
                            ).take(k as int)[j] == key;
                        assert(urls_view(sched@).take(k as int + 1)[j] == key);
                    }
                }
            },
        }
        k += 1;
        proof {
            assert(fetcher.cache_model() == post_g);
            assert forall|kk: Seq<char>|
                !urls_view(sched@).take(k as int).contains(kk) && #[trigger] post_g.contains_key(
                    kk,
                ) implies old(fetcher).cache_model().contains_key(kk) && post_g[kk] == old(
                fetcher,
            ).cache_model()[kk] by {
                assert(!urls_view(sched@).take(k as int - 1).contains(kk)) by {
                    if urls_view(sched@).take(k as int - 1).contains(kk) {
                        let j = choose|j: int|
                            0 <= j < k - 1 && #[trigger] urls_view(sched@).take(k as int - 1)[j]
                                == kk;
                        assert(urls_view(sched@).take(k as int)[j] == kk);
                    }
                }
                assert(kk != key_g) by {
                    if kk == urls_view(sched@)[k as int - 1] {
                        assert(urls_view(sched@).take(k as int)[k as int - 1] == kk);
                    }
                }
                assert(post_g.contains_key(kk));
                assert(cache_pre.contains_key(kk) && post_g[kk] == cache_pre[kk]);
            }
            assert(entries_untouched(
                old(fetcher).cache_model(),
                fetcher.cache_model(),
                urls_view(sched@).take(k as int),
            ));
        }
    }
    proof {
        assert(urls_view(sched@).take(sched@.len() as int) =~= urls_view(sched@));
        assert forall|key: Seq<char>|
            plan.contains(key) && fetch_owed_at(*file_read, *http_get, key)
                implies table@.contains_key(key) by {
            let j = choose|j: int| 0 <= j < plan.len() && plan[j] == key;
            assert(urls_view(sched@)[j] == key);
        }
    }
    table
}

} // verus!
