//! An arena model of a parsed XML document.
//!
//! Nodes are stored in pre-order document order; each node records the
//! exclusive end of its subtree's index range, so the descendants of node `i`
//! are exactly the nodes at indices `i + 1 .. end`. Element names are local
//! names: any namespace prefix or binding is already stripped.
use vstd::prelude::*;
use crate::text::spec_trim;
use crate::text::trim_str;

verus! {

/// The kinds of node the extraction logic distinguishes.
#[derive(Debug, Clone, Copy, PartialEq, Eq, Structural)]
pub enum XmlNodeKind {
    /// An element, carrying a local name and attributes.
    Element,
    /// A text node, carrying character data.
    Text,
    /// Anything else: the document container, comments, processing instructions.
    Other,
}

/// One node of the flattened document tree.
#[derive(Debug, Clone)]
pub struct XmlNode {
    pub kind: XmlNodeKind,
    /// The element's local tag name; empty unless `kind` is `Element`.
    pub name: String,
    /// The text content; empty unless `kind` is `Text`.
    pub text: String,
    /// Attributes as (local name, value, carries a namespace).
    pub attrs: Vec<(String, String, bool)>,
    /// Exclusive end of this node's subtree range.
    pub end: usize,
}

/// A whole document: nodes in pre-order document order, node 0 the container.
#[derive(Debug, Clone)]
pub struct XmlDoc {
    pub nodes: Vec<XmlNode>,
}

/// The content of one node, at the specification level: its kind, local
/// name, text, and attributes as (local name, value, carries a namespace).
pub struct XmlNodeModel {
    pub kind: XmlNodeKind,
    pub name: Seq<char>,
    pub text: Seq<char>,
    pub attrs: Seq<(Seq<char>, Seq<char>, bool)>,
}

/// The view of an attribute list.
pub open spec fn attrs_view(a: Seq<(String, String, bool)>) -> Seq<(Seq<char>, Seq<char>, bool)> {
    a.map_values(|t: (String, String, bool)| (t.0@, t.1@, t.2))
}

/// Whether an arena entry carries exactly the content of the model record:
/// the kind always; name and attributes for an element, text for a text
/// node, and the empty defaults for the fields a kind lacks.
pub open spec fn entry_matches(e: XmlNode, m: XmlNodeModel) -> bool {
    &&& e.kind == m.kind
    &&& e.name@ == (if m.kind is Element {
        m.name
    } else {
        Seq::<char>::empty()
    })
    &&& e.text@ == (if m.kind is Text {
        m.text
    } else {
        Seq::<char>::empty()
    })
    &&& attrs_view(e.attrs@) == (if m.kind is Element {
        m.attrs
    } else {
        Seq::<(Seq<char>, Seq<char>, bool)>::empty()
    })
}

impl XmlDoc {
    /// Subtree ranges are within bounds and properly nested.
    pub open spec fn wf(self) -> bool {
        forall|i: int|
            0 <= i < self.nodes@.len() ==> {
                &&& i < (#[trigger] self.nodes@[i]).end <= self.nodes@.len()
                &&& forall|j: int|
                    i < j < self.nodes@[i].end ==> (#[trigger] self.nodes@[j]).end
                        <= self.nodes@[i].end
            }
    }

    /// Whether node `i` is an element whose local name is `name`.
    pub open spec fn spec_is_match(self, i: int, name: Seq<char>) -> bool {
        &&& self.nodes@[i].kind is Element
        &&& self.nodes@[i].name@ == name
    }

    /// The first match at or after `i`, before `stop`.
    pub open spec fn spec_find_from(self, i: int, stop: int, name: Seq<char>) -> Option<int>
        decreases stop - i,
    {
        if i >= stop {
            None
        } else if self.spec_is_match(i, name) {
            Some(i)
        } else {
            self.spec_find_from(i + 1, stop, name)
        }
    }

    /// The first element named `name`, in pre-order document order, among the
    /// descendants of node `start`: the nodes strictly below it.
    pub open spec fn spec_find_descendant(self, start: int, name: Seq<char>) -> Option<int> {
        self.spec_find_from(start + 1, self.nodes@[start].end as int, name)
    }

    /// The node's text, as the tree lookup reads it: the content of the
    /// node's first child, when that child is a text node.
    pub open spec fn spec_node_text(self, i: int) -> Option<Seq<char>> {
        if i + 1 < self.nodes@[i].end && self.nodes@[i + 1].kind is Text {
            Some(self.nodes@[i + 1].text@)
        } else {
            None
        }
    }

    /// The trimmed text of the first descendant named `name` below `start`;
    /// `None` when there is no match or the match has no text.
    pub open spec fn spec_find_text(self, start: int, name: Seq<char>) -> Option<Seq<char>> {
        match self.spec_find_descendant(start, name) {
            Option::None => None,
            Option::Some(k) => match self.spec_node_text(k) {
                Option::None => None,
                Option::Some(t) => Some(spec_trim(t)),
            },
        }
    }

    /// The value of the first non-namespaced attribute of node `i` named `key`.
    pub open spec fn spec_attr(self, i: int, key: Seq<char>) -> Option<Seq<char>> {
        Self::spec_attr_in(self.nodes@[i].attrs@, key)
    }

    /// The first non-namespaced attribute named `key` in a list.
    pub open spec fn spec_attr_in(attrs: Seq<(String, String, bool)>, key: Seq<char>) -> Option<
        Seq<char>,
    >
        decreases attrs.len(),
    {
        if attrs.len() == 0 {
            None
        } else if !attrs[0].2 && attrs[0].0@ == key {
            Some(attrs[0].1@)
        } else {
            Self::spec_attr_in(attrs.drop_first(), key)
        }
    }

    /// The first element on the top-level sibling chain starting at `j`:
    /// `j` itself if it is an element, else the chain continues at the end of
    /// `j`'s subtree range.
    pub open spec fn spec_first_element_from(self, j: int) -> Option<int>
        decreases self.nodes@.len() - j,
    {
        if j < 0 || j >= self.nodes@.len() {
            None
        } else if self.nodes@[j].kind is Element {
            Some(j)
        } else if self.nodes@[j].end <= j || self.nodes@[j].end > self.nodes@.len() {
            None
        } else {
            self.spec_first_element_from(self.nodes@[j].end as int)
        }
    }

    /// The document's root element: the first element child of the container
    /// node 0.
    pub open spec fn spec_root_element(self) -> Option<int> {
        self.spec_first_element_from(1)
    }

    /// Finds the document's root element, the first element among the
    /// container's children.
    pub fn root_element(&self) -> (r: Option<usize>)
        requires
            self.wf(),
        ensures
            match r {
                Option::Some(k) => self.spec_root_element() == Some(k as int) && k
                    < self.nodes@.len(),
                Option::None => self.spec_root_element() is None,
            },
    {
        let n = self.nodes.len();
        let mut j: usize = 1;
        while j < n
            invariant
                self.wf(),
                1 <= j,
                n == self.nodes@.len(),
                self.spec_root_element() == self.spec_first_element_from(j as int),
            decreases n - j,
        {
            if matches!(self.nodes[j].kind, XmlNodeKind::Element) {
                return Some(j);
            }
            j = self.nodes[j].end;
        }
        None
    }

    /// Finds the first element, in pre-order document order, among the
    /// descendants of node `start` — strictly below it, the node itself is
    /// never a match — whose local name equals `name`.
    pub fn find_descendant(&self, start: usize, name: &str) -> (r: Option<usize>)
        requires
            self.wf(),
            start < self.nodes@.len(),
        ensures
            match r {
                Option::Some(k) => self.spec_find_descendant(start as int, name@) == Some(k as int)
                    && start < k < self.nodes@[start as int].end,
                Option::None => self.spec_find_descendant(start as int, name@) is None,
            },
    {
        let stop = self.nodes[start].end;
        proof {
            assert(start < self.nodes@[start as int].end);
        }
        let mut j = start + 1;
        while j < stop
            invariant
                self.wf(),
                start + 1 <= j <= stop,
                stop == self.nodes@[start as int].end,
                start < self.nodes@.len(),
                self.spec_find_from(start as int + 1, stop as int, name@)
                    == self.spec_find_from(j as int, stop as int, name@),
            decreases stop - j,
        {
            let node = &self.nodes[j];
            if matches!(node.kind, XmlNodeKind::Element) && string_eq_str(&node.name, name) {
                return Some(j);
            }
            j = j + 1;
        }
        None
    }

    /// Reads the node's text: the content of its first child when that child
    /// is a text node.
    pub fn node_text(&self, i: usize) -> (r: Option<&String>)
        requires
            self.wf(),
            i < self.nodes@.len(),
        ensures
            match r {
                Option::Some(t) => self.spec_node_text(i as int) == Some(t@),
                Option::None => self.spec_node_text(i as int) is None,
            },
    {
        let end = self.nodes[i].end;
        if i + 1 < end {
            let child = &self.nodes[i + 1];
            if matches!(child.kind, XmlNodeKind::Text) {
                return Some(&child.text);
            }
        }
        None
    }

    /// Composes the descendant search with reading the matched element's
    /// trimmed text content.
    pub fn find_text(&self, start: usize, name: &str) -> (r: Option<String>)
        requires
            self.wf(),
            start < self.nodes@.len(),
        ensures
            match r {
                Option::Some(t) => self.spec_find_text(start as int, name@) == Some(t@),
                Option::None => self.spec_find_text(start as int, name@) is None,
            },
    {
        match self.find_descendant(start, name) {
            Option::None => None,
            Option::Some(k) => {
                proof {
                    lemma_find_in_range(*self, start as int + 1,
                        self.nodes@[start as int].end as int, name@, k as int);
                }
                match self.node_text(k) {
                    Option::None => None,
                    Option::Some(t) => Some(trim_str(t.as_str())),
                }
            },
        }
    }

    /// The value of the attribute of node `i` named `key` that carries no
    /// namespace, when one is present.
    pub fn attribute(&self, i: usize, key: &str) -> (r: Option<&String>)
        requires
            self.wf(),
            i < self.nodes@.len(),
        ensures
            match r {
                Option::Some(v) => self.spec_attr(i as int, key@) == Some(v@),
                Option::None => self.spec_attr(i as int, key@) is None,
            },
    {
        let attrs = &self.nodes[i].attrs;
        let n = attrs.len();
        let mut j: usize = 0;
        proof {
            assert(attrs@.skip(0) =~= attrs@);
        }
        while j < n
            invariant
                i < self.nodes@.len(),
                attrs@ == self.nodes@[i as int].attrs@,
                n == attrs@.len(),
                0 <= j <= n,
                Self::spec_attr_in(attrs@, key@) == Self::spec_attr_in(attrs@.skip(j as int), key@),
            decreases n - j,
        {
            let a = &attrs[j];
            if !a.2 && string_eq_str(&a.0, key) {
                proof {
                    assert(attrs@ == self.nodes@[i as int].attrs@);
                    assert(attrs@.skip(j as int)[0] == attrs@[j as int]);
                    assert(Self::spec_attr_in(attrs@.skip(j as int), key@) == Some(
                        attrs@[j as int].1@,
                    ));
                }
                return Some(&attrs[j].1);
            }
            proof {
                assert(attrs@.skip(j as int).drop_first() =~= attrs@.skip(j as int + 1));
            }
            j = j + 1;
        }
        None
    }
}

/// Any result of the range search lies in the range and matches.
pub proof fn lemma_find_in_range(doc: XmlDoc, i: int, stop: int, name: Seq<char>, k: int)
    requires
        doc.spec_find_from(i, stop, name) == Some(k),
    ensures
        i <= k < stop,
        doc.spec_is_match(k, name),
    decreases stop - i,
{
    if i < stop && !doc.spec_is_match(i, name) {
        lemma_find_in_range(doc, i + 1, stop, name, k);
    }
}

/// The range search returns the earliest match: nothing before it matches,
/// and a `None` result means nothing in the range matches.
pub proof fn lemma_find_first_match(doc: XmlDoc, i: int, stop: int, name: Seq<char>)
    ensures
        match doc.spec_find_from(i, stop, name) {
            Option::Some(k) => i <= k < stop && doc.spec_is_match(k, name) && (forall|j: int|
                i <= j < k ==> !doc.spec_is_match(j, name)),
            Option::None => forall|j: int| i <= j < stop ==> !doc.spec_is_match(j, name),
        },
    decreases stop - i,
{
    if i < stop && !doc.spec_is_match(i, name) {
        lemma_find_first_match(doc, i + 1, stop, name);
    }
}

/// Order-stability of the descendant search: among elements sharing a local
/// name below the same root, the one earlier in pre-order document order is
/// selected, whatever its nesting depth. Given any match at `m`, the search
/// returns a match no later than `m`.
pub proof fn lemma_find_descendant_order_stable(doc: XmlDoc, start: int, name: Seq<char>, m: int)
    requires
        doc.wf(),
        0 <= start < doc.nodes@.len(),
        start < m < doc.nodes@[start].end,
        doc.spec_is_match(m, name),
    ensures
        doc.spec_find_descendant(start, name) matches Some(k) && k <= m && doc.spec_is_match(
            k,
            name,
        ),
{
    lemma_find_first_match(doc, start + 1, doc.nodes@[start].end as int, name);
    if doc.spec_find_descendant(start, name) is None {
        assert(!doc.spec_is_match(m, name));
    } else {
        let k = doc.spec_find_descendant(start, name)->Some_0;
        if k > m {
            assert(!doc.spec_is_match(m, name));
        }
    }
}

/// String equality against a string slice, by view.
pub fn string_eq_str(s: &String, t: &str) -> (r: bool)
    ensures
        r == (s@ == t@),
{
    let u = String::from_str(t);
    *s == u
}

} // verus!

