//! Stylesheet data types with hand-rolled selector chains, and the
//! specificity arithmetic defined on them.

use vstd::prelude::*;

use crate::urls::ResourceUrl;

verus! {

/// A parsed stylesheet: its rules and the URL they resolve against.
#[derive(Clone, Debug, PartialEq)]
pub struct Stylesheet {
    pub rules: Vec<Rule>,
    pub base_url: ResourceUrl,
}

/// One rule: the selectors it applies to and its declarations.
#[derive(Clone, Debug, PartialEq)]
pub struct Rule {
    pub selectors: Vec<SelectorChain>,
    pub declarations: Vec<Declaration>,
}

/// A selector with its combinators, outermost last.
#[derive(Debug, PartialEq)]
pub enum SelectorChain {
    Simple(SimpleSelector),
    Descendant(Box<SelectorChain>, SimpleSelector),
    Child(Box<SelectorChain>, SimpleSelector),
    AdjacentSibling(Box<SelectorChain>, SimpleSelector),
}

impl SelectorChain {
    /// The id-selector count summed over the chain.
    pub open spec fn spec_a(self) -> int
        decreases self,
    {
        match self {
            SelectorChain::Simple(sel) => sel.spec_a(),
            SelectorChain::Descendant(chain, sel) => chain.spec_a() + sel.spec_a(),
            SelectorChain::Child(chain, sel) => chain.spec_a() + sel.spec_a(),
            SelectorChain::AdjacentSibling(chain, sel) => chain.spec_a() + sel.spec_a(),
        }
    }

    /// The class, attribute and pseudo-class count summed over the chain.
    pub open spec fn spec_b(self) -> int
        decreases self,
    {
        match self {
            SelectorChain::Simple(sel) => sel.spec_b(),
            SelectorChain::Descendant(chain, sel) => chain.spec_b() + sel.spec_b(),
            SelectorChain::Child(chain, sel) => chain.spec_b() + sel.spec_b(),
            SelectorChain::AdjacentSibling(chain, sel) => chain.spec_b() + sel.spec_b(),
        }
    }

    /// The type-selector and pseudo-element count summed over the chain.
    pub open spec fn spec_c(self) -> int
        decreases self,
    {
        match self {
            SelectorChain::Simple(sel) => sel.spec_c(),
            SelectorChain::Descendant(chain, sel) => chain.spec_c() + sel.spec_c(),
            SelectorChain::Child(chain, sel) => chain.spec_c() + sel.spec_c(),
            SelectorChain::AdjacentSibling(chain, sel) => chain.spec_c() + sel.spec_c(),
        }
    }

    /// The chain's specificity: the component-wise sum over its simple
    /// selectors.
    pub fn specificity(&self) -> (r: Specificity)
        requires
            self.spec_a() <= u32::MAX,
            self.spec_b() <= u32::MAX,
            self.spec_c() <= u32::MAX,
        ensures
            r.a == self.spec_a(),
            r.b == self.spec_b(),
            r.c == self.spec_c(),
        decreases *self,
    {
        proof {
            lemma_chain_counts_nonneg(*self);
        }
        match self {
            SelectorChain::Simple(sel) => sel.specificity(),
            SelectorChain::Descendant(chain, sel) => {
                proof {
                    lemma_chain_counts_nonneg(**chain);
                }
                chain.specificity().plus(sel.specificity())
            },
            SelectorChain::Child(chain, sel) => {
                proof {
                    lemma_chain_counts_nonneg(**chain);
                }
                chain.specificity().plus(sel.specificity())
            },
            SelectorChain::AdjacentSibling(chain, sel) => {
                proof {
                    lemma_chain_counts_nonneg(**chain);
                }
                chain.specificity().plus(sel.specificity())
            },
        }
    }
}

impl Clone for SelectorChain {
    fn clone(&self) -> (r: Self)
        decreases *self,
    {
        match self {
            SelectorChain::Simple(sel) => SelectorChain::Simple(sel.clone()),
            SelectorChain::Descendant(chain, sel) => SelectorChain::Descendant(
                Box::new((**chain).clone()),
                sel.clone(),
            ),
            SelectorChain::Child(chain, sel) => SelectorChain::Child(
                Box::new((**chain).clone()),
                sel.clone(),
            ),
            SelectorChain::AdjacentSibling(chain, sel) => SelectorChain::AdjacentSibling(
                Box::new((**chain).clone()),
                sel.clone(),
            ),
        }
    }
}

/// Specificity components never count below zero.
pub proof fn lemma_chain_counts_nonneg(chain: SelectorChain)
    ensures
        chain.spec_a() >= 0,
        chain.spec_b() >= 0,
        chain.spec_c() >= 0,
    decreases chain,
{
    match chain {
        SelectorChain::Simple(_) => {},
        SelectorChain::Descendant(inner, _) => {
            lemma_chain_counts_nonneg(*inner);
        },
        SelectorChain::Child(inner, _) => {
            lemma_chain_counts_nonneg(*inner);
        },
        SelectorChain::AdjacentSibling(inner, _) => {
            lemma_chain_counts_nonneg(*inner);
        },
    }
}

/// One compound selector.
#[derive(Clone, Debug, Default, PartialEq)]
pub struct SimpleSelector {
    pub type_selector: TypeSelector,
    pub attribute_selectors: Vec<AttributeSelector>,
    pub id_selectors: Vec<IdSelector>,
    pub class_selectors: Vec<ClassSelector>,
    pub pseudo_elements: Vec<PseudoElement>,
    pub pseudo_classes: Vec<PseudoClass>,
}

impl SimpleSelector {
    /// The id-selector count.
    pub open spec fn spec_a(self) -> int {
        self.id_selectors@.len() as int
    }

    /// The class, attribute and pseudo-class count.
    pub open spec fn spec_b(self) -> int {
        (self.class_selectors@.len() + self.attribute_selectors@.len()
            + self.pseudo_classes@.len()) as int
    }

    /// One for a named type selector, plus the pseudo-element count.
    pub open spec fn spec_c(self) -> int {
        (if self.type_selector is Type {
            1int
        } else {
            0int
        }) + self.pseudo_elements@.len() as int
    }

    /// The selector's specificity triple.
    pub fn specificity(&self) -> (r: Specificity)
        requires
            self.spec_a() <= u32::MAX,
            self.spec_b() <= u32::MAX,
            self.spec_c() <= u32::MAX,
        ensures
            r.a == self.spec_a(),
            r.b == self.spec_b(),
            r.c == self.spec_c(),
    {
        let mut specificity = Specificity { a: 0, b: 0, c: 0 };
        specificity.a = self.id_selectors.len() as u32;
        specificity.b = (self.class_selectors.len() + self.attribute_selectors.len()
            + self.pseudo_classes.len()) as u32;
        match self.type_selector {
            TypeSelector::Type(_) => {
                specificity.c = 1;
            },
            _ => {},
        }
        specificity.c = specificity.c + self.pseudo_elements.len() as u32;
        specificity
    }
}

/// The element-type part of a simple selector.
#[derive(Clone, Debug, PartialEq)]
pub enum TypeSelector {
    Type(String),
    Universal,
}

impl Default for TypeSelector {
    fn default() -> (r: Self)
        ensures
            r is Universal,
    {
        TypeSelector::Universal
    }
}

/// An attribute condition of a simple selector.
#[derive(Clone, Debug, PartialEq)]
pub enum AttributeSelector {
    Has { attribute: String },
    Equals { attribute: String, value: String },
    OneOf { attribute: String, value: String },
    Subcode { attribute: String, value: String },
}

/// An id condition of a simple selector.
#[derive(Clone, Debug, PartialEq)]
pub struct IdSelector(pub String);

/// A class condition of a simple selector.
#[derive(Clone, Debug, PartialEq)]
pub struct ClassSelector(pub String);

/// A pseudo-element of a simple selector.
#[derive(Clone, Debug, PartialEq, Eq)]
pub enum PseudoElement {
    FirstLine,
    FirstLetter,
    Before,
    After,
}

/// A pseudo-class of a simple selector.
#[derive(Clone, Debug, PartialEq, Eq)]
pub enum PseudoClass {
    FirstChild,
    Link,
    Visited,
    Hover,
    Active,
    Focus,
    Lang(String),
}

/// One property declaration.
#[derive(Clone, Debug, PartialEq)]
pub struct Declaration {
    pub name: String,
    pub value: Vec<Value>,
    pub important: bool,
}

/// One token of a declaration's value.
#[derive(Clone, Debug, PartialEq)]
pub struct Value(pub String);

/// A selector's specificity, most significant component first.
#[derive(Copy, Clone, Debug, PartialEq)]
pub struct Specificity {
    pub a: u32,
    pub b: u32,
    pub c: u32,
}

impl Specificity {
    /// The component-wise sum of two specificities.
    pub fn plus(self, rhs: Specificity) -> (r: Specificity)
        requires
            self.a + rhs.a <= u32::MAX,
            self.b + rhs.b <= u32::MAX,
            self.c + rhs.c <= u32::MAX,
        ensures
            r.a == self.a + rhs.a,
            r.b == self.b + rhs.b,
            r.c == self.c + rhs.c,
    {
        Specificity { a: self.a + rhs.a, b: self.b + rhs.b, c: self.c + rhs.c }
    }
}

} // verus!
