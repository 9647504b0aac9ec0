use std::cell::Cell;
use std::collections::HashMap;

use webfetch::fetcher::{Data, Error, Fetcher, HttpResponse};
use webfetch::urls::ResourceUrl;

fn url(text: &str) -> ResourceUrl {
    ResourceUrl::new(String::from(text))
}

fn redirect(to: &str, marker: &[u8]) -> HttpResponse {
    HttpResponse {
        status: 301,
        headers: vec![(String::from("location"), String::from(to))],
        body: marker.to_vec(),
    }
}

fn ok_response(body: &[u8]) -> HttpResponse {
    HttpResponse { status: 200, headers: vec![], body: body.to_vec() }
}

fn no_files(_u: String) -> Result<Vec<u8>, Error> {
    Err(Error::File)
}

fn no_http(_u: String) -> Result<HttpResponse, Error> {
    Err(Error::Http)
}

#[test]
fn file_scheme_returns_exact_file_bytes() {
    let mut fetcher = Fetcher::new(10_000).unwrap();
    let file_read = |u: String| {
        if u == "file:///data/known.bin" {
            Ok(vec![0xDE, 0xAD, 0xBE, 0xEF])
        } else {
            Err(Error::File)
        }
    };
    let out = fetcher
        .get_with_redirect(url("file:///data/known.bin"), 30, 0, &file_read, &no_http)
        .unwrap();
    match out {
        Data::File(bytes) => assert_eq!(bytes, vec![0xDE, 0xAD, 0xBE, 0xEF]),
        Data::Http(_) => panic!("a file: URL must come back as file data"),
    }
}

#[test]
fn unsupported_scheme_is_rejected() {
    let mut fetcher = Fetcher::new(10_000).unwrap();
    let out = fetcher.get_with_redirect(url("ftp://x"), 30, 0, &no_files, &no_http);
    assert_eq!(out.unwrap_err(), Error::UnsupportedScheme);
    let out2 = fetcher.get_with_redirect(url("gopher://y/z"), 30, 0, &no_files, &no_http);
    assert_eq!(out2.unwrap_err(), Error::UnsupportedScheme);
}

#[test]
fn redirect_chain_of_two_hops_returns_final_body() {
    let mut fetcher = Fetcher::new(10_000).unwrap();
    let mut table = HashMap::new();
    table.insert(String::from("http://a.example/"), redirect("http://b.example/", b"A"));
    table.insert(String::from("http://b.example/"), redirect("http://c.example/", b"B"));
    table.insert(String::from("http://c.example/"), ok_response(b"C-BODY"));
    let http_get = |u: String| table.get(&u).cloned().ok_or(Error::Http);
    let out = fetcher
        .get_with_redirect(url("http://a.example/"), 30, 0, &no_files, &http_get)
        .unwrap();
    match out {
        Data::Http(resp) => {
            assert_eq!(resp.status, 200);
            assert_eq!(resp.body, b"C-BODY".to_vec());
        },
        Data::File(_) => panic!("http chain must end in an http response"),
    }
}

#[test]
fn redirect_exhaustion_returns_thirtieth_response_verbatim() {
    let mut fetcher = Fetcher::new(10_000).unwrap();
    let mut table = HashMap::new();
    for i in 1..=31u32 {
        let this = format!("http://hop.example/{}", i);
        let next = format!("http://hop.example/{}", i + 1);
        table.insert(this, redirect(&next, format!("{}", i).as_bytes()));
    }
    let calls = Cell::new(0u32);
    let http_get = |u: String| {
        calls.set(calls.get() + 1);
        table.get(&u).cloned().ok_or(Error::Http)
    };
    let out = fetcher
        .get_with_redirect(url("http://hop.example/1"), 30, 0, &no_files, &http_get)
        .unwrap();
    match out {
        Data::Http(resp) => {
            assert_eq!(resp.status, 301, "the final response is still a redirect");
            assert_eq!(resp.body, b"30".to_vec(), "it is the thirtieth response");
        },
        Data::File(_) => panic!("http chain must end in an http response"),
    }
    assert_eq!(calls.get(), 30);
}

#[test]
fn redirect_without_location_is_returned_as_is() {
    let mut fetcher = Fetcher::new(10_000).unwrap();
    let http_get = |_u: String| {
        Ok(HttpResponse { status: 302, headers: vec![], body: b"stuck".to_vec() })
    };
    let out = fetcher
        .get_with_redirect(url("http://s.example/"), 30, 0, &no_files, &http_get)
        .unwrap();
    match out {
        Data::Http(resp) => {
            assert_eq!(resp.status, 302);
            assert_eq!(resp.body, b"stuck".to_vec());
        },
        Data::File(_) => panic!("expected the redirect response itself"),
    }
}

#[test]
fn relative_location_resolves_against_current_url() {
    let mut fetcher = Fetcher::new(10_000).unwrap();
    let mut table = HashMap::new();
    table.insert(
        String::from("http://site.example/a/start"),
        redirect("moved", b""),
    );
    table.insert(String::from("http://site.example/a/moved"), ok_response(b"HERE"));
    let http_get = |u: String| table.get(&u).cloned().ok_or(Error::Http);
    let out = fetcher
        .get_with_redirect(url("http://site.example/a/start"), 30, 0, &no_files, &http_get)
        .unwrap();
    match out {
        Data::Http(resp) => assert_eq!(resp.body, b"HERE".to_vec()),
        Data::File(_) => panic!("expected an http response"),
    }
}

#[test]
fn malformed_location_is_a_resolution_error() {
    let mut fetcher = Fetcher::new(10_000).unwrap();
    let http_get = |_u: String| Ok(redirect("http://[", b""));
    let out = fetcher.get_with_redirect(url("http://m.example/"), 30, 0, &no_files, &http_get);
    assert_eq!(out.unwrap_err(), Error::UrlParseError);
}

#[test]
fn transport_failure_is_reported() {
    let mut fetcher = Fetcher::new(10_000).unwrap();
    let out = fetcher.get_with_redirect(url("https://down.example/"), 30, 0, &no_files, &no_http);
    assert_eq!(out.unwrap_err(), Error::Http);
    let out2 = fetcher.get_with_redirect(url("file:///missing"), 30, 0, &no_files, &no_http);
    assert_eq!(out2.unwrap_err(), Error::File);
}

#[test]
fn cache_hit_skips_the_transport() {
    let mut fetcher = Fetcher::new(10_000).unwrap();
    let calls = Cell::new(0u32);
    let http_get = |_u: String| {
        calls.set(calls.get() + 1);
        Ok(ok_response(b"PAYLOAD"))
    };
    let first = fetcher
        .get_with_redirect(url("https://c.example/x"), 30, 100, &no_files, &http_get)
        .unwrap();
    assert_eq!(first.body(), &b"PAYLOAD".to_vec());
    assert_eq!(calls.get(), 1);
    let second = fetcher
        .get_with_redirect(url("https://c.example/x"), 30, 200, &no_files, &http_get)
        .unwrap();
    assert_eq!(calls.get(), 1, "the second fetch must be served from the cache");
    match second {
        Data::Http(resp) => {
            assert_eq!(resp.status, 200, "a cache hit is a synthetic success");
            assert!(resp.headers.is_empty());
            assert_eq!(resp.body, b"PAYLOAD".to_vec());
        },
        Data::File(_) => panic!("expected a synthetic http response"),
    }
}

#[test]
fn cache_entry_expires_and_transport_is_asked_again() {
    let mut fetcher = Fetcher::new(1000).unwrap();
    let calls = Cell::new(0u32);
    let http_get = |_u: String| {
        calls.set(calls.get() + 1);
        Ok(ok_response(b"X"))
    };
    fetcher.get_with_redirect(url("https://e.example/"), 30, 0, &no_files, &http_get).unwrap();
    fetcher.get_with_redirect(url("https://e.example/"), 30, 999, &no_files, &http_get).unwrap();
    assert_eq!(calls.get(), 1);
    fetcher.get_with_redirect(url("https://e.example/"), 30, 1000, &no_files, &http_get).unwrap();
    assert_eq!(calls.get(), 2, "after the lifetime the transport is asked again");
}

#[test]
fn redirect_result_is_cached_under_the_original_url() {
    let mut fetcher = Fetcher::new(10_000).unwrap();
    let mut table = HashMap::new();
    table.insert(String::from("http://a.example/"), redirect("http://b.example/", b"A"));
    table.insert(String::from("http://b.example/"), ok_response(b"FINAL"));
    let calls = Cell::new(0u32);
    let http_get = |u: String| {
        calls.set(calls.get() + 1);
        table.get(&u).cloned().ok_or(Error::Http)
    };
    let first = fetcher
        .get_with_redirect(url("http://a.example/"), 30, 0, &no_files, &http_get)
        .unwrap();
    assert_eq!(first.body(), &b"FINAL".to_vec());
    assert_eq!(calls.get(), 2);
    // The final bytes are cached under the originally requested URL ...
    let again = fetcher
        .get_with_redirect(url("http://a.example/"), 30, 1, &no_files, &http_get)
        .unwrap();
    assert_eq!(calls.get(), 2, "the whole chain is served from the cache");
    assert_eq!(again.body(), &b"FINAL".to_vec(), "with the final body, not the redirect's");
    // ... and intermediate hops were not cached on their own.
    fetcher
        .get_with_redirect(url("http://b.example/"), 30, 2, &no_files, &http_get)
        .unwrap();
    assert_eq!(calls.get(), 3);
}

#[test]
fn wrapped_transport_error_is_passed_through() {
    let mut fetcher = Fetcher::new(10_000).unwrap();
    let http_get = |_u: String| -> Result<HttpResponse, Error> { Err(Error::Other) };
    let out = fetcher.get_with_redirect(url("https://o.example/"), 30, 0, &no_files, &http_get);
    assert_eq!(out.unwrap_err(), Error::Other);
}
