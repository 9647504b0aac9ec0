//! An arena document tree and the discovery of fetchable references.
//!
//! The tree provider is an external collaborator: whatever parses the
//! raw document hands this module an arena of nodes addressed by stable
//! integer indices, children listed in document order. A node's children
//! always carry smaller indices than the node itself (children are pushed
//! before their parent), which makes traversal termination structural.
//!
//! Discovery walks the tree in pre-order and collects, in order, the
//! `href` of every `link rel="stylesheet"` element and the `src` of every
//! `img` element — except inside `template` elements, whose content is
//! inert and must not trigger fetches. Tag names are compared
//! case-insensitively (ASCII); attribute names and the `rel` value are
//! matched exactly, as the original tree provider hands them over in
//! lower case.

use vstd::prelude::*;

use crate::urls::{lower_char, lower_char_exec, lower_seq, str_eq};

verus! {

/// What a node is: an element with a tag name and ordered attributes,
/// a text run, or anything else (comments, documents, doctypes).
pub enum NodeData {
    Element { name: String, attrs: Vec<(String, String)> },
    Text(String),
    Other,
}

/// One node of the arena: its data and the indices of its children, in
/// document order.
pub struct DomNode {
    pub data: NodeData,
    pub children: Vec<usize>,
}

/// A document tree as an arena. Children precede their parents, so every
/// child index is smaller than its parent's.
pub struct Dom {
    pub nodes: Vec<DomNode>,
}

impl Dom {
    /// Every child index points at an earlier node.
    pub open spec fn wf(self) -> bool {
        forall|i: int, k: int|
            0 <= i < self.nodes@.len() && 0 <= k < self.nodes@[i].children@.len() ==> (
            self.nodes@[i].children@[k] as int) < i
    }

    pub fn new() -> (r: Dom)
        ensures
            r.wf(),
            r.nodes@.len() == 0,
    {
        Dom { nodes: Vec::new() }
    }

    /// Appends a node whose children are already present and returns its
    /// index. Building bottom-up this way keeps the arena well formed.
    pub fn push_node(&mut self, data: NodeData, children: Vec<usize>) -> (idx: usize)
        requires
            old(self).wf(),
            forall|k: int|
                0 <= k < children@.len() ==> (children@[k] as int) < old(self).nodes@.len(),
        ensures
            final(self).wf(),
            idx == old(self).nodes@.len(),
            final(self).nodes@ == old(self).nodes@.push(DomNode { data, children }),
    {
        let idx = self.nodes.len();
        self.nodes.push(DomNode { data, children });
        proof {
            assert forall|i: int, k: int|
                0 <= i < self.nodes@.len() && 0 <= k < self.nodes@[i].children@.len() implies (
            self.nodes@[i].children@[k] as int) < i by {
                if i < self.nodes@.len() - 1 {
                    assert(self.nodes@[i] == old(self).nodes@[i]);
                }
            }
        }
        idx
    }
}

/// `b == true` exactly when `name`, lowered, spells `lit`.
pub fn tag_matches(name: &str, lit: &str) -> (b: bool)
    ensures
        b == (lower_seq(name@) == lit@),
{
    let n: usize = name.unicode_len();
    let m: usize = lit.unicode_len();
    if n != m {
        proof {
            assert(lower_seq(name@).len() == name@.len());
        }
        return false;
    }
    let mut i: usize = 0;
    while i < n
        invariant
            0 <= i <= n,
            n == name@.len(),
            n == lit@.len(),
            forall|j: int| 0 <= j < i ==> lower_char(name@[j]) == lit@[j],
        decreases n - i,
    {
        let c = lower_char_exec(name.get_char(i));
        if c != lit.get_char(i) {
            proof {
                assert(lower_seq(name@)[i as int] != lit@[i as int]);
            }
            return false;
        }
        i += 1;
    }
    proof {
        assert(lower_seq(name@) =~= lit@);
    }
    true
}

/// The value of the first attribute with the given name, if any.
pub open spec fn attr_lookup(attrs: Seq<(String, String)>, name: Seq<char>) -> Option<Seq<char>>
    decreases attrs.len(),
{
    if attrs.len() == 0 {
        None
    } else if attrs[0].0@ == name {
        Some(attrs[0].1@)
    } else {
        attr_lookup(attrs.drop_first(), name)
    }
}

/// Finds the first attribute named `name` (an exact match).
pub fn find_attr<'a>(attrs: &'a Vec<(String, String)>, name: &str) -> (r: Option<&'a String>)
    ensures
        match r {
            Some(v) => attr_lookup(attrs@, name@) == Some(v@),
            None => attr_lookup(attrs@, name@) is None,
        },
{
    let mut i: usize = 0;
    proof {
        assert(attrs@.skip(0) =~= attrs@);
    }
    while i < attrs.len()
        invariant
            0 <= i <= attrs@.len(),
            attr_lookup(attrs@, name@) == attr_lookup(attrs@.skip(i as int), name@),
        decreases attrs@.len() - i,
    {
        proof {
            assert(attrs@.skip(i as int)[0] == attrs@[i as int]);
            assert(attrs@.skip(i as int).drop_first() =~= attrs@.skip(i as int + 1));
        }
        if str_eq(attrs[i].0.as_str(), name) {
            let v = &attrs[i].1;
            proof {
                assert(attr_lookup(attrs@.skip(i as int), name@) == Some(attrs@[i as int].1@));
            }
            return Some(v);
        }
        i += 1;
    }
    proof {
        assert(attrs@.skip(i as int).len() == 0);
    }
    None
}

/// The node is a `template` element, whose content is inert.
pub open spec fn is_template(data: NodeData) -> bool {
    data matches NodeData::Element { name, .. } && lower_seq(name@) == "template"@
}

/// The references a single node contributes: the `href` of a stylesheet
/// `link`, or the `src` of an `img`.
pub open spec fn node_own_refs(data: NodeData) -> Seq<Seq<char>> {
    match data {
        NodeData::Element { name, attrs } => {
            if lower_seq(name@) == "link"@ && attr_lookup(attrs@, "rel"@) == Some("stylesheet"@)
                && attr_lookup(attrs@, "href"@) is Some {
                seq![attr_lookup(attrs@, "href"@).unwrap()]
            } else if lower_seq(name@) == "img"@ && attr_lookup(attrs@, "src"@) is Some {
                seq![attr_lookup(attrs@, "src"@).unwrap()]
            } else {
                Seq::empty()
            }
        },
        _ => Seq::empty(),
    }
}

/// The references found by a pre-order walk from node `i`: the node's own
/// contribution, then its children's, left to right — except under a
/// `template`, whose subtree contributes nothing.
pub open spec fn subtree_refs(dom: Dom, i: int) -> Seq<Seq<char>>
    decreases i, 1int, 0int,
{
    if dom.wf() && 0 <= i < dom.nodes@.len() {
        let node = dom.nodes@[i];
        node_own_refs(node.data) + (if is_template(node.data) {
            Seq::empty()
        } else {
            children_refs(dom, i, node.children@)
        })
    } else {
        Seq::empty()
    }
}

/// The concatenation of the references of the subtrees rooted at `cs`,
/// all of which lie below `i` in a well-formed arena.
pub open spec fn children_refs(dom: Dom, i: int, cs: Seq<usize>) -> Seq<Seq<char>>
    decreases i, 0int, cs.len(),
{
    if cs.len() == 0 {
        Seq::empty()
    } else {
        (if (cs[0] as int) < i {
            subtree_refs(dom, cs[0] as int)
        } else {
            Seq::empty()
        }) + children_refs(dom, i, cs.drop_first())
    }
}

proof fn lemma_children_refs_cat(dom: Dom, i: int, s1: Seq<usize>, s2: Seq<usize>)
    ensures
        children_refs(dom, i, s1 + s2) == children_refs(dom, i, s1) + children_refs(dom, i, s2),
    decreases s1.len(),
{
    if s1.len() == 0 {
        assert(s1 + s2 =~= s2);
        assert(children_refs(dom, i, s1) + children_refs(dom, i, s2) =~= children_refs(
            dom,
            i,
            s2,
        ));
    } else {
        assert((s1 + s2)[0] == s1[0]);
        assert((s1 + s2).len() > 0);
        assert((s1 + s2).drop_first() =~= s1.drop_first() + s2);
        lemma_children_refs_cat(dom, i, s1.drop_first(), s2);
        let head: Seq<Seq<char>> = if (s1[0] as int) < i {
            subtree_refs(dom, s1[0] as int)
        } else {
            Seq::empty()
        };
        assert(children_refs(dom, i, s1 + s2) == head + (children_refs(dom, i, s1.drop_first())
            + children_refs(dom, i, s2)));
        assert(head + (children_refs(dom, i, s1.drop_first()) + children_refs(dom, i, s2)) =~= (head
            + children_refs(dom, i, s1.drop_first())) + children_refs(dom, i, s2));
    }
}

proof fn lemma_children_refs_take_step(dom: Dom, i: int, cs: Seq<usize>, k: int)
    requires
        0 <= k < cs.len(),
        (cs[k] as int) < i,
    ensures
        children_refs(dom, i, cs.take(k + 1)) == children_refs(dom, i, cs.take(k)) + subtree_refs(
            dom,
            cs[k] as int,
        ),
{
    let single = seq![cs[k]];
    assert(cs.take(k + 1) =~= cs.take(k) + single);
    lemma_children_refs_cat(dom, i, cs.take(k), single);
    assert(single.len() == 1 && single[0] == cs[k]);
    assert(single.drop_first() =~= Seq::<usize>::empty());
    assert(children_refs(dom, i, Seq::<usize>::empty()) == Seq::<Seq<char>>::empty());
    assert(children_refs(dom, i, single) == subtree_refs(dom, cs[k] as int) + Seq::<
        Seq<char>,
    >::empty());
    assert(subtree_refs(dom, cs[k] as int) + Seq::<Seq<char>>::empty() =~= subtree_refs(
        dom,
        cs[k] as int,
    ));
}

/// The texts of a vector of strings.
pub open spec fn strs_view(v: Seq<String>) -> Seq<Seq<char>> {
    v.map_values(|s: String| s@)
}

proof fn lemma_strs_view_push(v: Seq<String>, x: Seq<char>)
    ensures
        forall|s: String| s@ == x ==> strs_view(v.push(s)) == strs_view(v).push(x),
{
    assert forall|s: String| s@ == x implies strs_view(v.push(s)) == strs_view(v).push(x) by {
        assert(strs_view(v.push(s)) =~= strs_view(v).push(x));
    }
}

proof fn lemma_tags_differ()
    ensures
        "link"@ != "img"@,
{
    reveal_strlit("link");
    reveal_strlit("img");
    assert("link"@.len() == 4);
    assert("img"@.len() == 3);
}

/// Appends the references of the subtree rooted at `root` to `out`, in
/// pre-order.
pub fn collect_refs(dom: &Dom, root: usize, out: &mut Vec<String>)
    requires
        dom.wf(),
        (root as int) < dom.nodes@.len(),
    ensures
        strs_view(final(out)@) == strs_view(old(out)@) + subtree_refs(*dom, root as int),
    decreases root,
{
    let ghost out0 = out@;
    let node = &dom.nodes[root];
    let ghost data0 = dom.nodes@[root as int].data;
    let mut skip_children = false;
    match &node.data {
        NodeData::Element { name, attrs } => {
            if tag_matches(name.as_str(), "link") {
                let rel = find_attr(attrs, "rel");
                let rel_is_stylesheet = match rel {
                    Some(v) => str_eq(v.as_str(), "stylesheet"),
                    None => false,
                };
                if rel_is_stylesheet {
                    match find_attr(attrs, "href") {
                        Some(href) => {
                            let h = href.clone();
                            let ghost hv = h@;
                            proof {
                                assert(node_own_refs(data0) =~= seq![hv]);
                            }
                            out.push(h);
                            proof {
                                lemma_strs_view_push(out0, hv);
                                assert(strs_view(out0) + seq![hv] =~= strs_view(out0).push(hv));
                                assert(strs_view(out@) == strs_view(out0) + node_own_refs(data0));
                            }
                        },
                        None => {},
                    }
                }
            } else if tag_matches(name.as_str(), "img") {
                match find_attr(attrs, "src") {
                    Some(src) => {
                        let h = src.clone();
                        let ghost hv = h@;
                        proof {
                            assert(node_own_refs(data0) =~= seq![hv]);
                        }
                        out.push(h);
                        proof {
                            lemma_strs_view_push(out0, hv);
                            assert(strs_view(out0) + seq![hv] =~= strs_view(out0).push(hv));
                            assert(strs_view(out@) == strs_view(out0) + node_own_refs(data0));
                        }
                    },
                    None => {},
                }
            }
            if tag_matches(name.as_str(), "template") {
                skip_children = true;
            }
        },
        _ => {},
    }
    proof {
        lemma_tags_differ();
        assert(strs_view(out0) + Seq::<Seq<char>>::empty() =~= strs_view(out0));
        assert(strs_view(out@) == strs_view(out0) + node_own_refs(dom.nodes@[root as int].data));
    }
    if skip_children {
        proof {
            assert(strs_view(out@) =~= strs_view(out0) + subtree_refs(*dom, root as int));
        }
        return ;
    }
    let ghost own = node_own_refs(dom.nodes@[root as int].data);
    let cs = &node.children;
    let mut k: usize = 0;
    while k < cs.len()
        invariant
            dom.wf(),
            (root as int) < dom.nodes@.len(),
            cs@ == dom.nodes@[root as int].children@,
            own == node_own_refs(dom.nodes@[root as int].data),
            0 <= k <= cs@.len(),
            strs_view(out@) == strs_view(out0) + own + children_refs(
                *dom,
                root as int,
                cs@.take(k as int),
            ),
        decreases cs@.len() - k,
    {
        let child = cs[k];
        proof {
            assert((cs@[k as int] as int) < root as int);
        }
        collect_refs(dom, child, out);
        proof {
            lemma_children_refs_take_step(*dom, root as int, cs@, k as int);
            assert(strs_view(out@) =~= strs_view(out0) + own + children_refs(
                *dom,
                root as int,
                cs@.take(k as int + 1),
            ));
        }
        k += 1;
    }
    proof {
        assert(cs@.take(cs@.len() as int) =~= cs@);
        assert(strs_view(out@) =~= strs_view(out0) + subtree_refs(*dom, root as int));
    }
}

/// The references of the subtree rooted at `root`, in pre-order.
pub fn discover_refs(dom: &Dom, root: usize) -> (r: Vec<String>)
    requires
        dom.wf(),
        (root as int) < dom.nodes@.len(),
    ensures
        strs_view(r@) == subtree_refs(*dom, root as int),
{
    let mut out: Vec<String> = Vec::new();
    collect_refs(dom, root, &mut out);
    proof {
        assert(strs_view(Seq::<String>::empty()) =~= Seq::<Seq<char>>::empty());
        assert(Seq::<Seq<char>>::empty() + subtree_refs(*dom, root as int) =~= subtree_refs(
            *dom,
            root as int,
        ));
    }
    out
}

} // verus!
