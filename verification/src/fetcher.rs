//! Scheme dispatch, caching and bounded redirect following.
//!
//! [`Fetcher::get`] performs one raw fetch: a `file:` URL is handed to
//! the caller's file reader, an `http:`/`https:` URL to the caller's HTTP
//! transport; any other scheme is rejected.
//!
//! [`Fetcher::get_with_redirect`] is the fetch operation everything else
//! calls. An `http:`/`https:` URL is served from the cache when a live
//! entry exists; on a miss it runs the redirect loop — following
//! `Location` headers of redirection-class responses, each resolved
//! against the URL that produced it, for at most `max_redirects` fetches
//! in all — and on success stores the final bytes in the cache keyed by
//! the originally requested URL, never the post-redirect one. When the
//! hop budget runs out the last (possibly still redirecting) response is
//! returned as-is rather than an error.
//!
//! The transports are closures, so the verified logic here never performs
//! I/O itself; the contracts state what holds of every value a transport
//! may hand back.

use vstd::prelude::*;

use crate::cache::{get_model, put_model, copy_bytes, Cache, CacheItem, EntryModel};
use crate::urls::{classify, join_url, scheme_of, url_join, ResourceUrl, Scheme};

verus! {

/// An HTTP response, reduced to what this subsystem interprets: the
/// status code, the header list (names expected in lower case, as HTTP/2
/// and the `hyper` header map both produce), and the body bytes.
#[derive(Clone, Debug)]
pub struct HttpResponse {
    pub status: u16,
    pub headers: Vec<(String, String)>,
    pub body: Vec<u8>,
}

/// What one fetch produced: an HTTP response, or a file's bytes.
#[derive(Debug)]
pub enum Data {
    Http(HttpResponse),
    File(Vec<u8>),
}

impl Data {
    /// The payload bytes, whichever transport produced them.
    pub open spec fn spec_body(self) -> Seq<u8> {
        match self {
            Data::Http(resp) => resp.body@,
            Data::File(b) => b@,
        }
    }

    /// The payload bytes, whichever transport produced them.
    pub fn body(&self) -> (r: &Vec<u8>)
        ensures
            r@ == self.spec_body(),
    {
        match self {
            Data::Http(resp) => &resp.body,
            Data::File(b) => b,
        }
    }
}

/// The failure taxonomy of a fetch. A non-2xx terminal HTTP status is not
/// an error: it is returned as a normal [`Data::Http`] outcome for the
/// caller to interpret.
#[derive(PartialEq, Eq, Structural, Clone, Copy, Debug)]
pub enum Error {
    /// Local I/O failure from the file reader.
    File,
    /// Connection, TLS or protocol failure from the HTTP transport.
    Http,
    /// A reference failed to resolve against its base.
    UrlParseError,
    /// The URL's scheme is neither `file` nor `http(s)`.
    UnsupportedScheme,
    /// A wrapped underlying failure with no more specific class.
    Other,
}

/// The value of the first header with the given name, if any.
pub open spec fn header_lookup(hs: Seq<(String, String)>, name: Seq<char>) -> Option<Seq<char>>
    decreases hs.len(),
{
    if hs.len() == 0 {
        None
    } else if hs[0].0@ == name {
        Some(hs[0].1@)
    } else {
        header_lookup(hs.drop_first(), name)
    }
}

/// Finds the first header named `name` (an exact, case-sensitive match).
pub fn find_header<'a>(resp: &'a HttpResponse, name: &str) -> (r: Option<&'a String>)
    ensures
        match r {
            Some(v) => header_lookup(resp.headers@, name@) == Some(v@),
            None => header_lookup(resp.headers@, name@) is None,
        },
{
    let hs = &resp.headers;
    let mut i: usize = 0;
    proof {
        assert(hs@.skip(0) =~= hs@);
    }
    while i < hs.len()
        invariant
            0 <= i <= hs@.len(),
            hs@ == resp.headers@,
            header_lookup(hs@, name@) == header_lookup(hs@.skip(i as int), name@),
        decreases hs@.len() - i,
    {
        proof {
            assert(hs@.skip(i as int)[0] == hs@[i as int]);
            assert(hs@.skip(i as int).drop_first() =~= hs@.skip(i as int + 1));
        }
        if crate::urls::str_eq(hs[i].0.as_str(), name) {
            let v = &hs[i].1;
            proof {
                assert(header_lookup(hs@.skip(i as int), name@) == Some(hs@[i as int].1@));
            }
            return Some(v);
        }
        i += 1;
    }
    proof {
        assert(hs@.skip(i as int).len() == 0);
    }
    None
}

/// The status code belongs to the redirection class.
pub open spec fn spec_is_redirection(status: u16) -> bool {
    300 <= status < 400
}

/// The status code belongs to the redirection class.
pub fn is_redirection(status: u16) -> (r: bool)
    ensures
        r == spec_is_redirection(status),
{
    300 <= status && status < 400
}

/// The state threaded through the redirect loop: where the last fetch
/// went, and how many further fetches the hop budget still allows.
pub struct RedirectState {
    pub current_url: ResourceUrl,
    pub hops_remaining: u16,
}

/// The decision taken after one fetch: follow a redirect with a hop
/// consumed, keep the response as the final outcome, or fail because a
/// `Location` value did not resolve.
pub enum RedirectStep {
    Follow(RedirectState),
    Done,
    Fail(Error),
}

/// Exactly which step [`redirect_decide`] takes on each state and response.
pub open spec fn decide_post(state: RedirectState, data: Data, step: RedirectStep) -> bool {
    match data {
        Data::File(_) => step is Done,
        Data::Http(resp) => {
            if !spec_is_redirection(resp.status) {
                step is Done
            } else {
                match header_lookup(resp.headers@, "location"@) {
                    None => step is Done,
                    Some(loc) => {
                        if state.hops_remaining == 0 {
                            step is Done
                        } else {
                            match url_join(state.current_url@, loc) {
                                Some(u) => step matches RedirectStep::Follow(s2)
                                    && s2.current_url@ == u && s2.hops_remaining
                                    == state.hops_remaining - 1,
                                None => step matches RedirectStep::Fail(e) && e
                                    == Error::UrlParseError,
                            }
                        }
                    },
                }
            }
        },
    }
}

/// Decides what the redirect loop does after one fetch: follow the
/// `Location` of a redirection-class response while hops remain (resolving
/// it against the URL that produced the response), stop on anything else,
/// and fail when the `Location` value does not resolve.
pub fn redirect_decide(state: &RedirectState, data: &Data) -> (step: RedirectStep)
    ensures
        decide_post(*state, *data, step),
{
    match data {
        Data::File(_) => RedirectStep::Done,
        Data::Http(resp) => {
            if !is_redirection(resp.status) {
                return RedirectStep::Done;
            }
            let loc = find_header(resp, "location");
            match loc {
                None => RedirectStep::Done,
                Some(l) => {
                    if state.hops_remaining == 0 {
                        RedirectStep::Done
                    } else {
                        match join_url(&state.current_url, l.as_str()) {
                            Some(u) => RedirectStep::Follow(
                                RedirectState {
                                    current_url: u,
                                    hops_remaining: state.hops_remaining - 1,
                                },
                            ),
                            None => RedirectStep::Fail(Error::UrlParseError),
                        }
                    }
                },
            }
        },
    }
}

/// Every outcome the file reader admits at URL text `k` is a success.
pub open spec fn file_ok_at<F: Fn(String) -> Result<Vec<u8>, Error>>(f: F, k: Seq<char>) -> bool {
    forall|a: String, out: Result<Vec<u8>, Error>|
        call_ensures(f, (a,), out) && a@ == k ==> out is Ok
}

/// Every outcome the HTTP transport admits at URL text `k` is a success
/// that does not redirect.
pub open spec fn http_ok_no_redirect_at<H: Fn(String) -> Result<HttpResponse, Error>>(
    h: H,
    k: Seq<char>,
) -> bool {
    forall|a: String, out: Result<HttpResponse, Error>|
        call_ensures(h, (a,), out) && a@ == k ==> (out matches Ok(resp)
            && !spec_is_redirection(resp.status))
}

/// `urls` is a redirect path the HTTP transport admits: every URL but
/// the last is an `http:`/`https:` URL that received the corresponding
/// redirection-class response, whose `location` value resolves against it
/// to the next URL in the path.
pub open spec fn redirect_path<H: Fn(String) -> Result<HttpResponse, Error>>(
    h: H,
    urls: Seq<String>,
    resps: Seq<HttpResponse>,
) -> bool {
    &&& urls.len() == resps.len() + 1
    &&& forall|i: int|
        0 <= i < resps.len() ==> #[trigger] call_ensures(
            h,
            (urls[i],),
            Ok::<HttpResponse, Error>(resps[i]),
        )
    &&& forall|i: int|
        0 <= i < resps.len() ==> (scheme_of(#[trigger] urls[i]@) == Scheme::Http || scheme_of(
            urls[i]@,
        ) == Scheme::Https)
    &&& forall|i: int| 0 <= i < resps.len() ==> spec_is_redirection(#[trigger] resps[i].status)
    &&& forall|i: int|
        0 <= i < resps.len() ==> (header_lookup(
            #[trigger] resps[i].headers@,
            "location"@,
        ) matches Some(loc) && url_join(urls[i]@, loc) == Some(urls[i + 1]@))
}

/// How many fetches a hop budget allows: at least the one initial fetch.
pub open spec fn max_fetches(budget: u16) -> int {
    if budget == 0 {
        1int
    } else {
        budget as int
    }
}

/// The outcome `d` stands at the end of a redirect chain from `start`
/// that the transports admit, within the fetch budget, and it is
/// terminal: a non-HTTP outcome, a response that does not redirect or
/// carries no `location`, or a response fetched with the budget spent.
pub open spec fn chain_outcome<F: Fn(String) -> Result<Vec<u8>, Error>, H: Fn(String) -> Result<
    HttpResponse,
    Error,
>>(f: F, h: H, start: Seq<char>, budget: u16, d: Data) -> bool {
    exists|urls: Seq<String>, resps: Seq<HttpResponse>|
        {
            &&& #[trigger] redirect_path(h, urls, resps)
            &&& urls[0]@ == start
            &&& urls.len() <= max_fetches(budget)
            &&& match d {
                Data::Http(resp) => {
                    &&& call_ensures(h, (urls.last(),), Ok::<HttpResponse, Error>(resp))
                    &&& (scheme_of(urls.last()@) == Scheme::Http || scheme_of(urls.last()@)
                        == Scheme::Https)
                    &&& (!spec_is_redirection(resp.status) || header_lookup(
                        resp.headers@,
                        "location"@,
                    ) is None || urls.len() >= budget as int)
                },
                Data::File(b) => scheme_of(urls.last()@) == Scheme::File && call_ensures(
                    f,
                    (urls.last(),),
                    Ok::<Vec<u8>, Error>(b),
                ),
            }
        }
}

/// The error `e` arises at the end of a redirect chain from `start` that
/// the transports admit: a transport failed at the chain's last URL, the
/// chain reached a URL of an unsupported scheme, or the last URL's
/// response redirects somewhere that does not resolve against it.
pub open spec fn chain_error<F: Fn(String) -> Result<Vec<u8>, Error>, H: Fn(String) -> Result<
    HttpResponse,
    Error,
>>(f: F, h: H, start: Seq<char>, e: Error) -> bool {
    exists|urls: Seq<String>, resps: Seq<HttpResponse>|
        {
            &&& #[trigger] redirect_path(h, urls, resps)
            &&& urls[0]@ == start
            &&& ({
                ||| call_ensures(f, (urls.last(),), Err::<Vec<u8>, Error>(e))
                ||| call_ensures(h, (urls.last(),), Err::<HttpResponse, Error>(e))
                ||| (e == Error::UnsupportedScheme && scheme_of(urls.last()@) == Scheme::Other)
                ||| (e == Error::UrlParseError && (exists|resp: HttpResponse|
                    {
                        &&& #[trigger] call_ensures(
                            h,
                            (urls.last(),),
                            Ok::<HttpResponse, Error>(resp),
                        )
                        &&& spec_is_redirection(resp.status)
                        &&& header_lookup(resp.headers@, "location"@) is Some
                        &&& url_join(
                            urls.last()@,
                            header_lookup(resp.headers@, "location"@).unwrap(),
                        ) is None
                    }))
            })
        }
}

proof fn lemma_redirect_path_push<H: Fn(String) -> Result<HttpResponse, Error>>(
    h: H,
    urls: Seq<String>,
    resps: Seq<HttpResponse>,
    resp: HttpResponse,
    next: String,
)
    requires
        redirect_path(h, urls, resps),
        call_ensures(h, (urls.last(),), Ok::<HttpResponse, Error>(resp)),
        scheme_of(urls.last()@) == Scheme::Http || scheme_of(urls.last()@) == Scheme::Https,
        spec_is_redirection(resp.status),
        (header_lookup(resp.headers@, "location"@) matches Some(loc) && url_join(
            urls.last()@,
            loc,
        ) == Some(next@)),
    ensures
        redirect_path(h, urls.push(next), resps.push(resp)),
{
    let urls2 = urls.push(next);
    let resps2 = resps.push(resp);
    assert forall|i: int| 0 <= i < resps2.len() implies #[trigger] call_ensures(
        h,
        (urls2[i],),
        Ok::<HttpResponse, Error>(resps2[i]),
    ) by {
        if i < resps.len() {
            assert(urls2[i] == urls[i] && resps2[i] == resps[i]);
        } else {
            assert(urls2[i] == urls.last() && resps2[i] == resp);
        }
    }
    assert forall|i: int| 0 <= i < resps2.len() implies (scheme_of(#[trigger] urls2[i]@)
        == Scheme::Http || scheme_of(urls2[i]@) == Scheme::Https) by {
        if i < resps.len() {
            assert(urls2[i] == urls[i]);
        } else {
            assert(urls2[i] == urls.last());
        }
    }
    assert forall|i: int| 0 <= i < resps2.len() implies spec_is_redirection(
        #[trigger] resps2[i].status,
    ) by {
        if i < resps.len() {
            assert(resps2[i] == resps[i]);
        } else {
            assert(resps2[i] == resp);
        }
    }
    assert forall|i: int| 0 <= i < resps2.len() implies (header_lookup(
        #[trigger] resps2[i].headers@,
        "location"@,
    ) matches Some(loc) && url_join(urls2[i]@, loc) == Some(urls2[i + 1]@)) by {
        if i < resps.len() {
            assert(urls2[i] == urls[i] && resps2[i] == resps[i] && urls2[i + 1] == urls[i + 1]);
        } else {
            assert(urls2[i] == urls.last() && resps2[i] == resp && urls2[i + 1] == next);
        }
    }
}

/// The synthetic success outcome a cache hit is wrapped in.
pub open spec fn synthetic_hit(resp: HttpResponse, bytes: Seq<u8>) -> bool {
    resp.status == 200 && resp.headers@.len() == 0 && resp.body@ == bytes
}

/// Composes scheme dispatch, the cache and redirect following into one
/// `fetch(url)` operation. The caller supplies the two transports and the
/// current instant; the cache's time-to-live for new entries is fixed at
/// construction.
pub struct Fetcher {
    cache: Cache,
    ttl: u64,
}

impl Fetcher {
    /// The cache's association list is well formed.
    pub closed spec fn wf(self) -> bool {
        self.cache.wf()
    }

    /// The cache's contents, as a map from URL text to entry.
    pub closed spec fn cache_model(self) -> Map<Seq<char>, EntryModel> {
        self.cache@
    }

    /// The time-to-live given to every entry this fetcher stores.
    pub closed spec fn spec_ttl(self) -> u64 {
        self.ttl
    }

    /// A fetcher with an empty cache. Every entry it stores will live for
    /// `ttl` clock units; there is no implicit "forever" default.
    pub fn new(ttl: u64) -> (r: Result<Fetcher, Error>)
        ensures
            r matches Ok(f) && f.wf() && f.spec_ttl() == ttl && f.cache_model() == Map::<
                Seq<char>,
                EntryModel,
            >::empty(),
    {
        Ok(Fetcher { cache: Cache::new(), ttl })
    }

    /// One raw fetch of `url`, with no cache involved.
    ///
    /// A `file:` URL goes to `file_read`, an `http:`/`https:` URL to
    /// `http_get`, and any other scheme is `UnsupportedScheme`; the
    /// result is exactly what the transport handed back, wrapped by
    /// origin.
    pub fn get<F: Fn(String) -> Result<Vec<u8>, Error>, H: Fn(String) -> Result<
        HttpResponse,
        Error,
    >>(
        &self,
        url: &ResourceUrl,
        file_read: &F,
        http_get: &H,
    ) -> (r: Result<Data, Error>)
        requires
            forall|a: String| call_requires(*file_read, (a,)),
            forall|a: String| call_requires(*http_get, (a,)),
        ensures
            scheme_of(url@) == Scheme::Other ==> r == Err::<Data, Error>(Error::UnsupportedScheme),
            scheme_of(url@) == Scheme::File ==> (match r {
                Ok(d) => d matches Data::File(b) && call_ensures(
                    *file_read,
                    (url.text,),
                    Ok::<Vec<u8>, Error>(b),
                ),
                Err(e) => call_ensures(*file_read, (url.text,), Err::<Vec<u8>, Error>(e)),
            }),
            (scheme_of(url@) == Scheme::Http || scheme_of(url@) == Scheme::Https) ==> (match r {
                Ok(d) => d matches Data::Http(resp) && call_ensures(
                    *http_get,
                    (url.text,),
                    Ok::<HttpResponse, Error>(resp),
                ),
                Err(e) => call_ensures(*http_get, (url.text,), Err::<HttpResponse, Error>(e)),
            }),
    {
        let scheme = classify(url);
        match scheme {
            Scheme::File => {
                match file_read(url.text.clone()) {
                    Ok(b) => Ok(Data::File(b)),
                    Err(e) => Err(e),
                }
            },
            Scheme::Http | Scheme::Https => {
                match http_get(url.text.clone()) {
                    Ok(resp) => Ok(Data::Http(resp)),
                    Err(e) => Err(e),
                }
            },
            Scheme::Other => Err(Error::UnsupportedScheme),
        }
    }

    /// The bounded redirect loop over raw fetches: issue one fetch, and
    /// while the response redirects somewhere resolvable and hops remain,
    /// follow. The budget counts fetches, not follows: a budget of `n`
    /// issues at most `n` fetches (one, then at most `n - 1` follows),
    /// and a budget of zero still performs the one initial fetch.
    fn follow_redirects<F: Fn(String) -> Result<Vec<u8>, Error>, H: Fn(String) -> Result<
        HttpResponse,
        Error,
    >>(
        &self,
        url: &ResourceUrl,
        max_redirects: u16,
        file_read: &F,
        http_get: &H,
    ) -> (r: Result<Data, Error>)
        requires
            forall|a: String| call_requires(*file_read, (a,)),
            forall|a: String| call_requires(*http_get, (a,)),
        ensures
            scheme_of(url@) == Scheme::Other ==> r == Err::<Data, Error>(Error::UnsupportedScheme),
            scheme_of(url@) == Scheme::File ==> (match r {
                Ok(d) => d matches Data::File(b) && call_ensures(
                    *file_read,
                    (url.text,),
                    Ok::<Vec<u8>, Error>(b),
                ),
                Err(e) => call_ensures(*file_read, (url.text,), Err::<Vec<u8>, Error>(e)),
            }),
            scheme_of(url@) != Scheme::Other ==> (match r {
                Ok(d) => chain_outcome(*file_read, *http_get, url@, max_redirects, d),
                Err(e) => chain_error(*file_read, *http_get, url@, e),
            }),
            (scheme_of(url@) == Scheme::File && file_ok_at(*file_read, url@)) ==> r is Ok,
            ((scheme_of(url@) == Scheme::Http || scheme_of(url@) == Scheme::Https)
                && http_ok_no_redirect_at(*http_get, url@)) ==> r is Ok,
    {
        let mut state = RedirectState {
            current_url: url.duplicate(),
            hops_remaining: max_redirects,
        };
        let first = self.get(&state.current_url, file_read, http_get);
        let mut data = match first {
            Ok(d) => d,
            Err(e) => {
                proof {
                    if scheme_of(url@) != Scheme::Other {
                        let urls0: Seq<String> = seq![state.current_url.text];
                        let resps0: Seq<HttpResponse> = Seq::empty();
                        assert(redirect_path(*http_get, urls0, resps0));
                        assert(urls0.last() == state.current_url.text);
                        assert(chain_error(*file_read, *http_get, url@, e));
                    }
                }
                return Err(e);
            },
        };
        if state.hops_remaining > 0 {
            state.hops_remaining = state.hops_remaining - 1;
        }
        let ghost mut urls_trace: Seq<String> = seq![state.current_url.text];
        let ghost mut resps_trace: Seq<HttpResponse> = Seq::empty();
        proof {
            assert(redirect_path(*http_get, urls_trace, resps_trace));
            assert(urls_trace.last() == state.current_url.text);
        }
        loop
            invariant
                scheme_of(url@) != Scheme::Other,
                forall|a: String| call_requires(*file_read, (a,)),
                forall|a: String| call_requires(*http_get, (a,)),
                redirect_path(*http_get, urls_trace, resps_trace),
                urls_trace[0]@ == url@,
                urls_trace.last() == state.current_url.text,
                urls_trace.len() + state.hops_remaining as int == max_fetches(max_redirects),
                scheme_of(url@) == Scheme::File ==> (data matches Data::File(b) && call_ensures(
                    *file_read,
                    (url.text,),
                    Ok::<Vec<u8>, Error>(b),
                )),
                data matches Data::File(b) ==> call_ensures(
                    *file_read,
                    (urls_trace.last(),),
                    Ok::<Vec<u8>, Error>(b),
                ) && scheme_of(urls_trace.last()@) == Scheme::File,
                data matches Data::Http(resp) ==> call_ensures(
                    *http_get,
                    (urls_trace.last(),),
                    Ok::<HttpResponse, Error>(resp),
                ) && (scheme_of(urls_trace.last()@) == Scheme::Http || scheme_of(
                    urls_trace.last()@,
                ) == Scheme::Https),
                ((scheme_of(url@) == Scheme::Http || scheme_of(url@) == Scheme::Https)
                    && http_ok_no_redirect_at(*http_get, url@)) ==> (data matches Data::Http(
                    resp,
                ) && !spec_is_redirection(resp.status)),
            decreases state.hops_remaining,
        {
            let step = redirect_decide(&state, &data);
            match step {
                RedirectStep::Done => {
                    proof {
                        assert(chain_outcome(
                            *file_read,
                            *http_get,
                            url@,
                            max_redirects,
                            data,
                        ));
                    }
                    return Ok(data);
                },
                RedirectStep::Fail(e) => {
                    proof {
                        assert(chain_error(*file_read, *http_get, url@, e));
                    }
                    return Err(e);
                },
                RedirectStep::Follow(s2) => {
                    let ghost prev_urls = urls_trace;
                    let ghost prev_resps = resps_trace;
                    state = s2;
                    proof {
                        let resp = data->Http_0;
                        lemma_redirect_path_push(
                            *http_get,
                            prev_urls,
                            prev_resps,
                            resp,
                            state.current_url.text,
                        );
                        urls_trace = prev_urls.push(state.current_url.text);
                        resps_trace = prev_resps.push(resp);
                        assert(urls_trace[0] == prev_urls[0]);
                        assert(urls_trace.last() == state.current_url.text);
                    }
                    match self.get(&state.current_url, file_read, http_get) {
                        Ok(d) => {
                            data = d;
                        },
                        Err(e) => {
                            proof {
                                assert(chain_error(*file_read, *http_get, url@, e));
                            }
                            return Err(e);
                        },
                    }
                },
            }
        }
    }

    /// Fetches `url` at instant `now`: the operation every other
    /// component calls.
    ///
    /// A `file:` URL goes straight to the file reader and leaves the
    /// cache alone. An `http:`/`https:` URL is served from the cache when
    /// a live entry exists, as a synthetic success without touching the
    /// transport; on a miss the bounded redirect loop runs, and on
    /// success the final bytes are stored in the cache keyed by the
    /// originally requested URL — never the post-redirect one — with this
    /// fetcher's time-to-live. When the hop budget is exhausted while the
    /// response still redirects, that last response is returned as-is,
    /// not an error.
    pub fn get_with_redirect<F: Fn(String) -> Result<Vec<u8>, Error>, H: Fn(String) -> Result<
        HttpResponse,
        Error,
    >>(
        &mut self,
        url: ResourceUrl,
        max_redirects: u16,
        now: u64,
        file_read: &F,
        http_get: &H,
    ) -> (r: Result<Data, Error>)
        requires
            old(self).wf(),
            forall|a: String| call_requires(*file_read, (a,)),
            forall|a: String| call_requires(*http_get, (a,)),
        ensures
            final(self).wf(),
            final(self).spec_ttl() == old(self).spec_ttl(),
            scheme_of(url@) == Scheme::Other ==> r == Err::<Data, Error>(Error::UnsupportedScheme)
                && final(self).cache_model() == old(self).cache_model(),
            scheme_of(url@) == Scheme::File ==> final(self).cache_model() == old(
                self,
            ).cache_model() && (match r {
                Ok(d) => d matches Data::File(b) && call_ensures(
                    *file_read,
                    (url.text,),
                    Ok::<Vec<u8>, Error>(b),
                ),
                Err(e) => call_ensures(*file_read, (url.text,), Err::<Vec<u8>, Error>(e)),
            }),
            (scheme_of(url@) == Scheme::Http || scheme_of(url@) == Scheme::Https) ==> (match
                get_model(old(self).cache_model(), url@, now) {
                Some(entry) => {
                    &&& r matches Ok(d) && d matches Data::Http(resp) && synthetic_hit(
                        resp,
                        entry.bytes,
                    )
                    &&& final(self).cache_model() == old(self).cache_model()
                },
                None => {
                    match r {
                        Ok(d) => final(self).cache_model() == put_model(
                            old(self).cache_model().remove(url@),
                            url@,
                            EntryModel {
                                bytes: d.spec_body(),
                                created_at: now,
                                ttl: old(self).spec_ttl(),
                            },
                            now,
                        ),
                        Err(_) => final(self).cache_model() == old(self).cache_model().remove(
                            url@,
                        ),
                    }
                },
            }),
            scheme_of(url@) != Scheme::Other ==> (match r {
                Ok(d) => chain_outcome(*file_read, *http_get, url@, max_redirects, d) || (d
                    matches Data::Http(resp) && get_model(old(self).cache_model(), url@, now)
                    matches Some(entry) && synthetic_hit(resp, entry.bytes)),
                Err(e) => chain_error(*file_read, *http_get, url@, e),
            }),
            (scheme_of(url@) == Scheme::File && file_ok_at(*file_read, url@)) ==> r is Ok,
            ((scheme_of(url@) == Scheme::Http || scheme_of(url@) == Scheme::Https)
                && http_ok_no_redirect_at(*http_get, url@)) ==> r is Ok,
    {
        let scheme = classify(&url);
        let is_http = match scheme {
            Scheme::Http | Scheme::Https => true,
            _ => false,
        };
        if is_http {
            let cached = self.cache.get(&url, now);
            match cached {
                Some(item) => {
                    return Ok(
                        Data::Http(
                            HttpResponse { status: 200, headers: Vec::new(), body: item.data },
                        ),
                    );
                },
                None => {
                    match self.follow_redirects(&url, max_redirects, file_read, http_get) {
                        Ok(d) => {
                            let item = CacheItem::new(copy_bytes(d.body()), now, self.ttl);
                            self.cache.put(&url, item, now);
                            return Ok(d);
                        },
                        Err(e) => {
                            return Err(e);
                        },
                    }
                },
            }
        }
        self.follow_redirects(&url, max_redirects, file_read, http_get)
    }
}

} // verus!
