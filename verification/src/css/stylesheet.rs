//! Stylesheet data types for the selector-library-backed model.
//!
//! In this model the selector lists themselves come from an outside
//! selector library, so the rule and stylesheet containers live with the
//! code that drives that library; the plain value types they share are
//! here.

use vstd::prelude::*;

verus! {

/// An attribute condition of a selector.
#[derive(Clone, Debug, PartialEq)]
pub enum AttributeSelector {
    Has { attribute: String },
    Equals { attribute: String, value: String },
    OneOf { attribute: String, value: String },
    Subcode { attribute: String, value: String },
}

/// An id condition of a selector.
#[derive(Clone, Debug, PartialEq)]
pub struct IdSelector(pub String);

/// A class condition of a selector.
#[derive(Clone, Debug, PartialEq)]
pub struct ClassSelector(pub String);

/// A pseudo-element of a selector.
#[derive(Clone, Debug, PartialEq, Eq)]
pub enum PseudoElement {
    After,
    Backdrop,
    Before,
    Cue,
    FirstLetter,
    FirstLine,
    GrammarError,
    Marker,
    Placeholder,
    Selection,
    SpellingError,
}

/// A pseudo-class of a selector.
#[derive(Clone, Debug, PartialEq, Eq)]
pub enum PseudoClass {
    FirstChild,
    Link,
    Visited,
    Hover,
    Active,
    Focus,
    Lang(String),
}

impl PseudoClass {
    /// The pseudo-class reacts to pointer activity.
    pub fn is_active_or_hover(&self) -> (r: bool)
        ensures
            r == (self is Active || self is Hover),
    {
        match self {
            PseudoClass::Active => true,
            PseudoClass::Hover => true,
            _ => false,
        }
    }
}

/// One property declaration.
#[derive(Clone, Debug, PartialEq)]
pub struct Declaration {
    pub name: String,
    pub value: Vec<Value>,
    pub important: bool,
}

/// One token of a declaration's value.
#[derive(Clone, Debug, PartialEq)]
pub struct Value(pub String);

/// A selector's specificity, most significant component first.
#[derive(Copy, Clone, Debug, PartialEq)]
pub struct Specificity {
    pub a: u32,
    pub b: u32,
    pub c: u32,
}

impl Specificity {
    /// The component-wise sum of two specificities.
    pub fn plus(self, rhs: Specificity) -> (r: Specificity)
        requires
            self.a + rhs.a <= u32::MAX,
            self.b + rhs.b <= u32::MAX,
            self.c + rhs.c <= u32::MAX,
        ensures
            r.a == self.a + rhs.a,
            r.b == self.b + rhs.b,
            r.c == self.c + rhs.c,
    {
        Specificity { a: self.a + rhs.a, b: self.b + rhs.b, c: self.c + rhs.c }
    }
}

} // verus!
