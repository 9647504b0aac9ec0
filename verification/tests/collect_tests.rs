use std::cell::Cell;
use std::collections::HashMap;

use webfetch::dom::{discover_refs, Dom, NodeData};
use webfetch::fetcher::{Error, Fetcher, HttpResponse};
use webfetch::page::{collect, schedule};
use webfetch::urls::ResourceUrl;

fn element(name: &str, attrs: &[(&str, &str)]) -> NodeData {
    NodeData::Element {
        name: String::from(name),
        attrs: attrs
            .iter()
            .map(|(k, v)| (String::from(*k), String::from(*v)))
            .collect(),
    }
}

fn url(text: &str) -> ResourceUrl {
    ResourceUrl::new(String::from(text))
}

fn no_http(_u: String) -> Result<HttpResponse, Error> {
    Err(Error::Http)
}

/// `<head><link rel="stylesheet" href="a.css"><link rel="stylesheet"
/// href="b.css"></head><body><img src="c.png"></body>` as an arena,
/// returning the root index.
fn scenario_dom() -> (Dom, usize) {
    let mut dom = Dom::new();
    let a = dom.push_node(element("link", &[("rel", "stylesheet"), ("href", "a.css")]), vec![]);
    let b = dom.push_node(element("link", &[("rel", "stylesheet"), ("href", "b.css")]), vec![]);
    let head = dom.push_node(element("head", &[]), vec![a, b]);
    let img = dom.push_node(element("img", &[("src", "c.png")]), vec![]);
    let body = dom.push_node(element("body", &[]), vec![img]);
    let root = dom.push_node(element("html", &[]), vec![head, body]);
    (dom, root)
}

#[test]
fn resource_keying_by_each_resources_own_url() {
    let (dom, root) = scenario_dom();
    let mut files = HashMap::new();
    files.insert(String::from("file:///page/a.css"), b"AAA".to_vec());
    files.insert(String::from("file:///page/b.css"), b"BBB".to_vec());
    files.insert(String::from("file:///page/c.png"), b"CCC".to_vec());
    let file_read = |u: String| files.get(&u).cloned().ok_or(Error::File);
    let mut fetcher = Fetcher::new(10_000).unwrap();
    let base = url("file:///page/");
    let table = collect(&mut fetcher, &base, &dom, root, 30, 0, &file_read, &no_http);
    assert_eq!(table.len(), 3);
    let a = table.get(&url("file:///page/a.css")).expect("a.css keyed by its own URL");
    assert_eq!(a.data.body(), &b"AAA".to_vec());
    assert_eq!(a.url.text, "file:///page/a.css");
    let b = table.get(&url("file:///page/b.css")).expect("b.css keyed by its own URL");
    assert_eq!(b.data.body(), &b"BBB".to_vec());
    let c = table.get(&url("file:///page/c.png")).expect("c.png keyed by its own URL");
    assert_eq!(c.data.body(), &b"CCC".to_vec());
    assert!(table.get(&base).is_none(), "the page's own URL must not be a key");
    assert!(table.get(&url("a.css")).is_none(), "raw references must not be keys");
}

#[test]
fn partial_failure_drops_only_the_missing_resource() {
    let (dom, root) = scenario_dom();
    let mut files = HashMap::new();
    files.insert(String::from("file:///page/a.css"), b"AAA".to_vec());
    files.insert(String::from("file:///page/c.png"), b"CCC".to_vec());
    let file_read = |u: String| files.get(&u).cloned().ok_or(Error::File);
    let mut fetcher = Fetcher::new(10_000).unwrap();
    let base = url("file:///page/");
    let table = collect(&mut fetcher, &base, &dom, root, 30, 0, &file_read, &no_http);
    assert_eq!(table.len(), 2, "a missing stylesheet must not fail the pass");
    assert!(table.get(&url("file:///page/a.css")).is_some());
    assert!(table.get(&url("file:///page/b.css")).is_none());
    assert!(table.get(&url("file:///page/c.png")).is_some());
}

#[test]
fn template_content_triggers_no_fetch() {
    let mut dom = Dom::new();
    let img = dom.push_node(element("img", &[("src", "x.png")]), vec![]);
    let template = dom.push_node(element("template", &[]), vec![img]);
    let root = dom.push_node(element("body", &[]), vec![template]);
    let attempts = Cell::new(0u32);
    let file_read = |_u: String| {
        attempts.set(attempts.get() + 1);
        Ok(b"X".to_vec())
    };
    let mut fetcher = Fetcher::new(10_000).unwrap();
    let base = url("file:///page/");
    let table = collect(&mut fetcher, &base, &dom, root, 30, 0, &file_read, &no_http);
    assert_eq!(attempts.get(), 0, "nothing inside a template may be fetched");
    assert_eq!(table.len(), 0);
    assert_eq!(discover_refs(&dom, root).len(), 0);
}

#[test]
fn sibling_after_template_is_still_fetched() {
    let mut dom = Dom::new();
    let hidden = dom.push_node(element("img", &[("src", "hidden.png")]), vec![]);
    let template = dom.push_node(element("template", &[]), vec![hidden]);
    let shown = dom.push_node(element("img", &[("src", "shown.png")]), vec![]);
    let root = dom.push_node(element("body", &[]), vec![template, shown]);
    let refs = discover_refs(&dom, root);
    assert_eq!(refs, vec![String::from("shown.png")]);
}

#[test]
fn duplicate_references_schedule_one_fetch() {
    let mut dom = Dom::new();
    let one = dom.push_node(element("img", &[("src", "x.png")]), vec![]);
    let two = dom.push_node(element("img", &[("src", "x.png")]), vec![]);
    let root = dom.push_node(element("body", &[]), vec![one, two]);
    let attempts = Cell::new(0u32);
    let file_read = |u: String| {
        attempts.set(attempts.get() + 1);
        if u == "file:///page/x.png" {
            Ok(b"X".to_vec())
        } else {
            Err(Error::File)
        }
    };
    let mut fetcher = Fetcher::new(10_000).unwrap();
    let base = url("file:///page/");
    let table = collect(&mut fetcher, &base, &dom, root, 30, 0, &file_read, &no_http);
    assert_eq!(attempts.get(), 1, "the same resolved URL is fetched once");
    assert_eq!(table.len(), 1);
}

#[test]
fn discovery_is_preorder_and_classifies_tags() {
    let (dom, root) = scenario_dom();
    let refs = discover_refs(&dom, root);
    assert_eq!(
        refs,
        vec![String::from("a.css"), String::from("b.css"), String::from("c.png")],
    );
}

#[test]
fn link_without_stylesheet_rel_is_ignored() {
    let mut dom = Dom::new();
    let icon = dom.push_node(element("link", &[("rel", "icon"), ("href", "i.ico")]), vec![]);
    let bare = dom.push_node(element("link", &[("href", "j.css")]), vec![]);
    let upper = dom.push_node(
        element("LINK", &[("rel", "stylesheet"), ("href", "k.css")]),
        vec![],
    );
    let root = dom.push_node(element("head", &[]), vec![icon, bare, upper]);
    let refs = discover_refs(&dom, root);
    assert_eq!(refs, vec![String::from("k.css")], "tag names match case-insensitively");
}

#[test]
fn schedule_resolves_and_deduplicates() {
    let base = url("file:///page/");
    let refs = vec![
        String::from("a.css"),
        String::from("b.css"),
        String::from("a.css"),
        String::from("file:///page/a.css"),
    ];
    let scheduled = schedule(&base, &refs);
    let texts: Vec<&str> = scheduled.iter().map(|u| u.text.as_str()).collect();
    assert_eq!(texts, vec!["file:///page/a.css", "file:///page/b.css"]);
}

#[test]
fn unresolvable_reference_is_skipped() {
    let base = url("not-a-url");
    let refs = vec![String::from("a.css")];
    let scheduled = schedule(&base, &refs);
    assert_eq!(scheduled.len(), 0, "an unparseable base resolves nothing");
}
