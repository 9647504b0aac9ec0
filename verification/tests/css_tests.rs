use webfetch::css::types::{
    ClassSelector, IdSelector, PseudoClass, SelectorChain, SimpleSelector, Specificity,
    TypeSelector,
};
use webfetch::css::stylesheet;
use webfetch::urls::{classify, ResourceUrl, Scheme};

#[test]
fn simple_selector_specificity_counts_components() {
    let sel = SimpleSelector {
        type_selector: TypeSelector::Type(String::from("div")),
        attribute_selectors: vec![],
        id_selectors: vec![IdSelector(String::from("main")), IdSelector(String::from("top"))],
        class_selectors: vec![ClassSelector(String::from("wide"))],
        pseudo_elements: vec![],
        pseudo_classes: vec![PseudoClass::Hover],
    };
    let s = sel.specificity();
    assert_eq!((s.a, s.b, s.c), (2, 2, 1));
}

#[test]
fn universal_selector_specificity_is_zero() {
    let sel = SimpleSelector::default();
    let s = sel.specificity();
    assert_eq!((s.a, s.b, s.c), (0, 0, 0));
}

#[test]
fn chain_specificity_sums_over_combinators() {
    let left = SimpleSelector {
        type_selector: TypeSelector::Type(String::from("ul")),
        attribute_selectors: vec![],
        id_selectors: vec![IdSelector(String::from("nav"))],
        class_selectors: vec![],
        pseudo_elements: vec![],
        pseudo_classes: vec![],
    };
    let right = SimpleSelector {
        type_selector: TypeSelector::Type(String::from("li")),
        attribute_selectors: vec![],
        id_selectors: vec![],
        class_selectors: vec![ClassSelector(String::from("item"))],
        pseudo_elements: vec![],
        pseudo_classes: vec![],
    };
    let chain = SelectorChain::Descendant(Box::new(SelectorChain::Simple(left)), right);
    let s = chain.specificity();
    assert_eq!((s.a, s.b, s.c), (1, 1, 2));
}

#[test]
fn specificity_plus_is_componentwise() {
    let s = Specificity { a: 1, b: 2, c: 3 }.plus(Specificity { a: 10, b: 20, c: 30 });
    assert_eq!((s.a, s.b, s.c), (11, 22, 33));
}

#[test]
fn type_selector_defaults_to_universal() {
    assert_eq!(TypeSelector::default(), TypeSelector::Universal);
    assert_eq!(SimpleSelector::default().type_selector, TypeSelector::Universal);
}

#[test]
fn pseudo_class_pointer_activity() {
    assert!(stylesheet::PseudoClass::Active.is_active_or_hover());
    assert!(stylesheet::PseudoClass::Hover.is_active_or_hover());
    assert!(!stylesheet::PseudoClass::Link.is_active_or_hover());
    assert!(!stylesheet::PseudoClass::Lang(String::from("en")).is_active_or_hover());
}

#[test]
fn scheme_classification() {
    assert_eq!(classify(&ResourceUrl::new(String::from("file:///tmp/x"))), Scheme::File);
    assert_eq!(classify(&ResourceUrl::new(String::from("http://h/"))), Scheme::Http);
    assert_eq!(classify(&ResourceUrl::new(String::from("https://h/"))), Scheme::Https);
    assert_eq!(classify(&ResourceUrl::new(String::from("HTTP://h/"))), Scheme::Http);
    assert_eq!(classify(&ResourceUrl::new(String::from("File:///tmp/x"))), Scheme::File);
    assert_eq!(classify(&ResourceUrl::new(String::from("HtTpS://h/"))), Scheme::Https);
    assert_eq!(classify(&ResourceUrl::new(String::from("ftp://h/"))), Scheme::Other);
    assert_eq!(classify(&ResourceUrl::new(String::from("httpx://h/"))), Scheme::Other);
    assert_eq!(classify(&ResourceUrl::new(String::from(""))), Scheme::Other);
}
