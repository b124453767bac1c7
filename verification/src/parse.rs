//! Parsing XML text into the arena model.
//!
//! The parser itself is `roxmltree`; a verified driver walks its nodes in
//! pre-order document order (node ids index the document's node table in that
//! order) and rebuilds them as an arena of plain values. The parse result is
//! a function of the text alone, so its node content table and parent table
//! carry names; the driver proves that the arena it returns holds exactly
//! the named content, with well-formed subtree ranges that end where the
//! named parent table's walk first leaves each node.
use vstd::prelude::*;
use crate::errors::InvoiceError;
use crate::xml::XmlDoc;
use crate::xml::XmlNode;
use crate::xml::XmlNodeKind;
use crate::xml::XmlNodeModel;
use crate::xml::attrs_view;
use crate::xml::entry_matches;

verus! {

#[verifier::external_type_specification]
#[verifier::external_body]
pub struct ExDocument<'input>(roxmltree::Document<'input>);

#[verifier::external_type_specification]
#[verifier::external_body]
pub struct ExNode<'a, 'input: 'a>(roxmltree::Node<'a, 'input>);

#[verifier::external_type_specification]
#[verifier::external_body]
pub struct ExXmlError(roxmltree::Error);

/// Whether `roxmltree::Document::parse` accepts the text as well-formed XML:
/// the result depends on the text alone.
pub uninterp spec fn spec_parse_ok(s: Seq<char>) -> bool;

/// The parent table of the document parsed from the text: for each node in
/// pre-order document order, the index of its parent. A function of the text
/// alone; its length is the node count.
pub uninterp spec fn spec_parse_parents(s: Seq<char>) -> Seq<Option<usize>>;

/// The content table of the document parsed from the text: each node's kind,
/// local name, text and attributes, in pre-order document order.
pub uninterp spec fn spec_parse_content(s: Seq<char>) -> Seq<XmlNodeModel>;

/// What the document holds of its tree shape: the parent of each node, as an
/// index into the node table, in pre-order document order.
pub uninterp spec fn doc_parent_table(d: roxmltree::Document) -> Seq<Option<usize>>;

/// What the document holds of its nodes: the content of each node of the
/// table, in pre-order document order.
pub uninterp spec fn doc_content_table(d: roxmltree::Document) -> Seq<XmlNodeModel>;

/// The parent entry of one node handle, as the document's table records it.
pub uninterp spec fn node_parent_entry(n: roxmltree::Node) -> Option<usize>;

/// The content of one node handle, as the document's table records it.
pub uninterp spec fn node_content(n: roxmltree::Node) -> XmlNodeModel;

/// The shape of a parent table written by a pre-order walk: the container
/// root stands first and has no parent; every later node's parent precedes
/// it and lies on the open path of the walk, that is, it is the previous
/// node or one of that node's ancestors.
pub open spec fn parent_table_wf(pt: Seq<Option<usize>>) -> bool {
    &&& pt.len() > 0
    &&& pt[0] is None
    &&& forall|i: int|
        1 <= i < pt.len() ==> ((#[trigger] pt[i]) matches Some(p) && (p as int) < i)
    &&& forall|i: int|
        1 <= i < pt.len() ==> in_chain(pt, (#[trigger] pt[i])->Some_0 as int, i - 1)
}

/// Whether `p` is `j` itself or an ancestor of `j` in the parent table.
pub open spec fn in_chain(pt: Seq<Option<usize>>, p: int, j: int) -> bool
    decreases j,
{
    if p == j {
        true
    } else if 0 <= j < pt.len() {
        match pt[j] {
            Option::Some(q) => (q as int) < j && in_chain(pt, p, q as int),
            Option::None => false,
        }
    } else {
        false
    }
}

/// The open path of a pre-order walk that has just emitted node `j`: the
/// indices from the container root down to `j`.
pub open spec fn chain_seq(pt: Seq<Option<usize>>, j: int) -> Seq<usize>
    decreases j,
{
    if 0 <= j < pt.len() {
        match pt[j] {
            Option::None => seq![j as usize],
            Option::Some(q) => if (q as int) < j {
                chain_seq(pt, q as int).push(j as usize)
            } else {
                seq![j as usize]
            },
        }
    } else {
        Seq::empty()
    }
}

/// The open path ends at the node it was built for.
proof fn lemma_chain_last(pt: Seq<Option<usize>>, j: int)
    requires
        0 <= j < pt.len(),
    ensures
        chain_seq(pt, j).len() > 0,
        chain_seq(pt, j).last() == j as usize,
{
}

/// An ancestor-or-self never follows the node in pre-order.
proof fn lemma_in_chain_le(pt: Seq<Option<usize>>, p: int, j: int)
    requires
        in_chain(pt, p, j),
    ensures
        p <= j,
    decreases j,
{
    if p != j {
        lemma_in_chain_le(pt, p, pt[j]->Some_0 as int);
    }
}

/// Ancestry is transitive.
proof fn lemma_in_chain_trans(pt: Seq<Option<usize>>, a: int, b: int, c: int)
    requires
        in_chain(pt, a, b),
        in_chain(pt, b, c),
    ensures
        in_chain(pt, a, c),
    decreases c,
{
    if b != c {
        lemma_in_chain_trans(pt, a, b, pt[c]->Some_0 as int);
    }
}

/// In a pre-order walk, everything between a node and one of its descendants
/// is also its descendant.
proof fn lemma_chain_interval(pt: Seq<Option<usize>>, t: int, j: int, m: int)
    requires
        parent_table_wf(pt),
        in_chain(pt, t, m),
        0 <= t <= j <= m < pt.len(),
    ensures
        in_chain(pt, t, j),
    decreases m,
{
    if j < m {
        let p = pt[m]->Some_0 as int;
        assert(in_chain(pt, t, p));
        assert(in_chain(pt, p, m - 1));
        lemma_in_chain_trans(pt, t, p, m - 1);
        lemma_chain_interval(pt, t, j, m - 1);
    }
}

/// The first index at or after `j` that is not a descendant-or-self of `t`;
/// the table's length when every later node is one.
pub open spec fn spec_subtree_end(pt: Seq<Option<usize>>, t: int, j: int) -> int
    decreases pt.len() - j,
{
    if j >= pt.len() {
        pt.len() as int
    } else if in_chain(pt, t, j) {
        spec_subtree_end(pt, t, j + 1)
    } else {
        j
    }
}

/// Where the pre-order subtree range of node `t` ends: the first index past
/// `t` that is not its descendant.
pub open spec fn spec_end_of(pt: Seq<Option<usize>>, t: int) -> int {
    spec_subtree_end(pt, t, t + 1)
}

/// A range of descendants followed by a non-descendant locates the end.
proof fn lemma_subtree_end_from(pt: Seq<Option<usize>>, t: int, j: int, i: int)
    requires
        j <= i <= pt.len(),
        forall|k: int| j <= k < i ==> in_chain(pt, t, k),
        i < pt.len() ==> !in_chain(pt, t, i),
    ensures
        spec_subtree_end(pt, t, j) == i,
    decreases i - j,
{
    if j < i {
        lemma_subtree_end_from(pt, t, j + 1, i);
    }
}

/// One pop step of the open path: dropping the path's last node leaves the
/// path of its parent, which is still an ancestor of any node the last one
/// was an ancestor of.
proof fn lemma_chain_step(pt: Seq<Option<usize>>, t: int, m: int)
    requires
        parent_table_wf(pt),
        0 <= t < pt.len(),
        pt[t] is Some,
        in_chain(pt, t, m),
    ensures
        chain_seq(pt, t).drop_last() == chain_seq(pt, pt[t]->Some_0 as int),
        in_chain(pt, pt[t]->Some_0 as int, m),
        chain_seq(pt, pt[t]->Some_0 as int).len() > 0,
        chain_seq(pt, pt[t]->Some_0 as int).last() == pt[t]->Some_0,
        (pt[t]->Some_0 as int) < pt.len(),
{
    let q = pt[t]->Some_0 as int;
    assert((q as int) < t) by {
        if t >= 1 {
        } else {
            assert(pt[0] is None);
        }
    }
    lemma_chain_last(pt, q);
    assert(chain_seq(pt, t).drop_last() =~= chain_seq(pt, q));
    assert(in_chain(pt, q, q));
    assert(in_chain(pt, q, t));
    lemma_in_chain_trans(pt, q, t, m);
}

/// A node popped while node `i` arrives closes exactly at `i`: everything
/// between it and `i` is its descendant, and `i`, whose parent is a strict
/// ancestor of the popped node, is not.
proof fn lemma_pop_end(pt: Seq<Option<usize>>, t: int, i: int, p: int)
    requires
        parent_table_wf(pt),
        0 <= t < i < pt.len(),
        in_chain(pt, t, i - 1),
        pt[i] matches Some(pp) && pp == p,
        in_chain(pt, p, t),
        p != t,
    ensures
        spec_end_of(pt, t) == i,
{
    assert forall|j: int| t < j < i implies in_chain(pt, t, j) by {
        lemma_chain_interval(pt, t, j, i - 1);
    }
    lemma_in_chain_le(pt, p, t);
    if in_chain(pt, t, i) {
        lemma_in_chain_le(pt, t, p);
        assert(false);
    }
    lemma_subtree_end_from(pt, t, t + 1, i);
}

/// A node still open when the walk ends closes at the table's end.
proof fn lemma_final_end(pt: Seq<Option<usize>>, t: int)
    requires
        parent_table_wf(pt),
        0 <= t < pt.len(),
        in_chain(pt, t, pt.len() - 1),
    ensures
        spec_end_of(pt, t) == pt.len(),
{
    assert forall|j: int| t < j < pt.len() implies in_chain(pt, t, j) by {
        lemma_chain_interval(pt, t, j, pt.len() - 1);
    }
    lemma_subtree_end_from(pt, t, t + 1, pt.len() as int);
}

/// Closing one node's subtree range keeps every entry's content.
proof fn lemma_close_preserves_content(
    nodes0: Seq<XmlNode>,
    nodes1: Seq<XmlNode>,
    ct: Seq<XmlNodeModel>,
    s: int,
)
    requires
        nodes1.len() == nodes0.len(),
        forall|j: int| 0 <= j < nodes0.len() && j != s ==> nodes1[j] == nodes0[j],
        0 <= s < nodes0.len(),
        nodes1[s].kind == nodes0[s].kind,
        nodes1[s].name == nodes0[s].name,
        nodes1[s].text == nodes0[s].text,
        nodes1[s].attrs == nodes0[s].attrs,
        forall|j: int| 0 <= j < nodes0.len() ==> entry_matches(#[trigger] nodes0[j], ct[j]),
    ensures
        forall|j: int| 0 <= j < nodes1.len() ==> entry_matches(#[trigger] nodes1[j], ct[j]),
{
    assert forall|j: int| 0 <= j < nodes1.len() implies entry_matches(
        #[trigger] nodes1[j],
        ct[j],
    ) by {
        assert(entry_matches(nodes0[j], ct[j]));
        if j != s {
            assert(nodes1[j] == nodes0[j]);
        }
    }
}

/// Whether the arena is exactly the parse of the text: as many nodes as the
/// named tables, each entry carrying the named content, and each subtree
/// range ending where the named parent table's pre-order walk first leaves
/// the node.
pub open spec fn spec_parses_to(s: Seq<char>, doc: XmlDoc) -> bool {
    &&& doc.nodes@.len() == spec_parse_content(s).len()
    &&& doc.nodes@.len() == spec_parse_parents(s).len()
    &&& forall|j: int|
        0 <= j < doc.nodes@.len() ==> entry_matches(
            #[trigger] doc.nodes@[j],
            spec_parse_content(s)[j],
        )
    &&& forall|j: int|
        0 <= j < doc.nodes@.len() ==> (#[trigger] doc.nodes@[j]).end == spec_end_of(
            spec_parse_parents(s),
            j,
        )
}

/// Relies on `roxmltree::Document::parse`: parses UTF-8 XML text into a
/// document tree, or reports why the text is not well-formed XML. The result
/// is a function of the text alone; the parser appends each node to the node
/// table in pre-order document order, under the element open at that point,
/// with the container root at index 0, so the parent table has the shape of
/// a pre-order walk.
#[verifier::external_body]
fn x_parse(xml: &str) -> (r: Result<roxmltree::Document<'_>, roxmltree::Error>)
    ensures
        (r is Ok) == spec_parse_ok(xml@),
        r matches Ok(d) ==> parent_table_wf(doc_parent_table(d)),
        r matches Ok(d) ==> doc_parent_table(d) == spec_parse_parents(xml@),
        r matches Ok(d) ==> doc_content_table(d) == spec_parse_content(xml@),
        r matches Ok(d) ==> doc_content_table(d).len() == doc_parent_table(d).len(),
{
    roxmltree::Document::parse(xml)
}

/// Relies on the `Display` impl of `roxmltree::Error` for the failure text.
#[verifier::external_body]
fn x_error_text(e: &roxmltree::Error) -> String {
    format!("{}", e)
}

/// Relies on `roxmltree::Document::get_node` and `NodeId::new`: node ids
/// index the document's node table, which holds the nodes in pre-order
/// document order; `Some` exactly while the index is within the table, and
/// the handle carries the table's parent and content entries for that index.
#[verifier::external_body]
fn x_get_node<'a, 'input>(doc: &'a roxmltree::Document<'input>, i: u32) -> (r: Option<
    roxmltree::Node<'a, 'input>,
>)
    requires
        i < 0xFFFF_FFFFu32,
    ensures
        (r is Some) == ((i as int) < doc_parent_table(*doc).len()),
        r matches Some(n) ==> node_parent_entry(n) == doc_parent_table(*doc)[i as int],
        r matches Some(n) ==> node_content(n) == doc_content_table(*doc)[i as int],
{
    doc.get_node(roxmltree::NodeId::new(i))
}

/// Relies on `roxmltree::Node::is_element`.
#[verifier::external_body]
fn x_is_element(n: &roxmltree::Node<'_, '_>) -> (r: bool)
    ensures
        r == (node_content(*n).kind is Element),
{
    n.is_element()
}

/// Relies on `roxmltree::Node::is_text`.
#[verifier::external_body]
fn x_is_text(n: &roxmltree::Node<'_, '_>) -> (r: bool)
    ensures
        r == (node_content(*n).kind is Text),
{
    n.is_text()
}

/// Relies on `roxmltree::Node::tag_name` and `ExpandedName::name`: the tag's
/// local name, with any namespace prefix or binding stripped; empty for
/// non-elements.
#[verifier::external_body]
fn x_local_name(n: &roxmltree::Node<'_, '_>) -> (r: String)
    ensures
        r@ == (if node_content(*n).kind is Element {
            node_content(*n).name
        } else {
            Seq::<char>::empty()
        }),
{
    n.tag_name().name().to_string()
}

/// Relies on `roxmltree::Node::text`: for a text node, its own character
/// data.
#[verifier::external_body]
fn x_text(n: &roxmltree::Node<'_, '_>) -> (r: Option<String>)
    ensures
        match r {
            Option::Some(t) => node_content(*n).kind is Text ==> t@ == node_content(*n).text,
            Option::None => !(node_content(*n).kind is Text),
        },
{
    n.text().map(|t| t.to_string())
}

/// Relies on `roxmltree::Node::parent`, `Node::id` and `NodeId::get_usize`:
/// the pre-order index of the node's parent; `None` for the container root.
#[verifier::external_body]
fn x_parent_index(n: &roxmltree::Node<'_, '_>) -> (r: Option<usize>)
    ensures
        r == node_parent_entry(*n),
{
    n.parent().map(|p| p.id().get_usize())
}

/// Relies on `roxmltree::Node::attributes`: how many attributes the node
/// has; none for non-elements.
#[verifier::external_body]
fn x_attr_count(n: &roxmltree::Node<'_, '_>) -> (r: usize)
    ensures
        r == (if node_content(*n).kind is Element {
            node_content(*n).attrs.len()
        } else {
            0
        }),
{
    n.attributes().len()
}

/// Relies on `roxmltree::Node::attributes` and the `Attribute` accessors
/// `name`, `value` and `namespace`: the `j`-th attribute, in document order,
/// as (local name, value, carries a namespace).
#[verifier::external_body]
fn x_attr_at(n: &roxmltree::Node<'_, '_>, j: usize) -> (r: Option<(String, String, bool)>)
    ensures
        match r {
            Option::Some(a) => node_content(*n).kind is Element ==> ((j as int) < node_content(
                *n,
            ).attrs.len() && (a.0@, a.1@, a.2) == node_content(*n).attrs[j as int]),
            Option::None => node_content(*n).kind is Element ==> (j as int) >= node_content(
                *n,
            ).attrs.len(),
        },
{
    n.attributes().nth(j).map(
        |a| (a.name().to_string(), a.value().to_string(), a.namespace().is_some()),
    )
}

/// The invariant of the arena builder: `stack` holds the indices of the open
/// nodes in increasing order, open nodes are marked by a zero `end`, and the
/// closed nodes already carry well-nested subtree ranges.
spec fn build_inv(nodes: Seq<XmlNode>, stack: Seq<usize>) -> bool {
    let k = nodes.len() as int;
    &&& forall|t: int| 0 <= t < stack.len() ==> (#[trigger] stack[t]) < k
    &&& forall|t1: int, t2: int|
        0 <= t1 < t2 < stack.len() ==> #[trigger] stack[t1] < #[trigger] stack[t2]
    &&& forall|t: int| 0 <= t < stack.len() ==> nodes[#[trigger] stack[t] as int].end == 0
    &&& forall|j: int|
        0 <= j < k && (#[trigger] nodes[j]).end == 0 ==> stack.contains(j as usize)
    &&& forall|j: int| 0 <= j < k && (#[trigger] nodes[j]).end != 0 ==> j < nodes[j].end <= k
    &&& forall|j: int, l: int|
        0 <= j < k && (#[trigger] nodes[j]).end != 0 && j < l < nodes[j].end ==> (
        #[trigger] nodes[l]).end != 0 && nodes[l].end <= nodes[j].end
}

/// With no node left open, the builder invariant is exactly well-formedness.
proof fn lemma_build_inv_closed(doc: XmlDoc)
    requires
        build_inv(doc.nodes@, Seq::<usize>::empty()),
    ensures
        doc.wf(),
{
    assert forall|j: int| 0 <= j < doc.nodes@.len() implies (#[trigger] doc.nodes@[j]).end != 0 by {
        if doc.nodes@[j].end == 0 {
            assert(Seq::<usize>::empty().contains(j as usize));
        }
    }
}

/// Closes the node on top of the stack, recording `k` as the exclusive end of
/// its subtree range.
fn close_top(nodes: &mut Vec<XmlNode>, stack: &mut Vec<usize>)
    requires
        build_inv(old(nodes)@, old(stack)@),
        old(stack)@.len() > 0,
    ensures
        build_inv(final(nodes)@, final(stack)@),
        final(stack)@ == old(stack)@.drop_last(),
        final(nodes)@.len() == old(nodes)@.len(),
        forall|j: int|
            0 <= j < old(nodes)@.len() && j != old(stack)@.last() ==> final(nodes)@[j] == old(
                nodes,
            )@[j],
        final(nodes)@[old(stack)@.last() as int].end == old(nodes)@.len(),
        final(nodes)@[old(stack)@.last() as int].kind == old(nodes)@[old(stack)@.last() as int].kind,
        final(nodes)@[old(stack)@.last() as int].name == old(nodes)@[old(stack)@.last() as int].name,
        final(nodes)@[old(stack)@.last() as int].text == old(nodes)@[old(stack)@.last() as int].text,
        final(nodes)@[old(stack)@.last() as int].attrs == old(nodes)@[old(stack)@.last() as int].attrs,
{
    let ghost nodes0 = nodes@;
    let ghost stack0 = stack@;
    let k = nodes.len();
    let s = stack[stack.len() - 1];
    stack.pop();
    proof {
        assert(stack@ =~= stack0.drop_last());
        assert(s == stack0.last());
        assert((s as int) < nodes0.len());
    }
    nodes[s].end = k;
    proof {
        assert(forall|j: int| 0 <= j < nodes0.len() && j != s ==> nodes@[j] == nodes0[j]);
        lemma_close_top_inv(nodes0, stack0, nodes@, s, k as int);
    }
}

/// Closing the top of the stack preserves the builder invariant.
proof fn lemma_close_top_inv(
    nodes0: Seq<XmlNode>,
    stack0: Seq<usize>,
    nodes1: Seq<XmlNode>,
    s: usize,
    k: int,
)
    requires
        build_inv(nodes0, stack0),
        stack0.len() > 0,
        s == stack0.last(),
        k == nodes0.len(),
        nodes1.len() == nodes0.len(),
        nodes1[s as int].end == k,
        nodes1[s as int].end != 0,
        forall|j: int| 0 <= j < nodes0.len() && j != s ==> nodes1[j] == nodes0[j],
    ensures
        build_inv(nodes1, stack0.drop_last()),
{
    let stack1 = stack0.drop_last();
    // the top of an increasing stack is its maximum
    assert forall|t: int| 0 <= t < stack1.len() implies nodes1[#[trigger] stack1[t] as int].end
        == 0 by {
        assert(stack0[t] < stack0[stack0.len() - 1]);
        assert(nodes0[stack0[t] as int].end == 0);
    }
    assert forall|j: int|
        0 <= j < nodes1.len() && (#[trigger] nodes1[j]).end == 0 implies stack1.contains(
        j as usize,
    ) by {
        assert(nodes0[j].end == 0);
        assert(stack0.contains(j as usize));
        let t = choose|t: int| 0 <= t < stack0.len() && stack0[t] == j as usize;
        assert(t < stack0.len() - 1) by {
            if t == stack0.len() - 1 {
                assert(j == s);
            }
        }
        assert(stack1[t] == j as usize);
    }
    assert forall|j: int, l: int|
        0 <= j < nodes1.len() && (#[trigger] nodes1[j]).end != 0 && j < l < nodes1[j].end implies (
    #[trigger] nodes1[l]).end != 0 && nodes1[l].end <= nodes1[j].end by {
        if j == s {
            // everything after the top of the stack is closed
            if nodes0[l].end == 0 {
                assert(stack0.contains(l as usize));
                let t = choose|t: int| 0 <= t < stack0.len() && stack0[t] == l as usize;
                if t < stack0.len() - 1 {
                    assert(stack0[t] < stack0[stack0.len() - 1]);
                }
            }
        } else {
            assert(nodes0[j].end != 0);
            if l == s {
                // an open node never lies inside a closed range
                assert(nodes0[s as int].end == 0);
                assert(nodes0[l].end != 0);
            }
        }
    }
}

/// Opens a new node: appends it to the arena with a zero `end` marker and
/// records it on the stack.
fn open_node(nodes: &mut Vec<XmlNode>, stack: &mut Vec<usize>, entry: XmlNode)
    requires
        build_inv(old(nodes)@, old(stack)@),
        entry.end == 0,
        old(nodes)@.len() < usize::MAX,
    ensures
        build_inv(final(nodes)@, final(stack)@),
        final(nodes)@ == old(nodes)@.push(entry),
        final(stack)@ == old(stack)@.push((old(nodes)@.len() as usize)),
{
    let ghost nodes0 = nodes@;
    let ghost stack0 = stack@;
    let i = nodes.len();
    nodes.push(entry);
    stack.push(i);
    proof {
        assert forall|j: int|
            0 <= j < nodes@.len() && (#[trigger] nodes@[j]).end == 0 implies stack@.contains(
            j as usize,
        ) by {
            if j < nodes0.len() {
                assert(stack0.contains(j as usize));
                let t = choose|t: int| 0 <= t < stack0.len() && stack0[t] == j as usize;
                assert(stack@[t] == j as usize);
            } else {
                assert(stack@[stack@.len() - 1] == j as usize);
            }
        }
    }
}

/// Parses XML text into a well-formed arena document.
///
/// Fails exactly when the text is not well-formed XML, with a `Parse` error
/// describing the failure.
#[verifier::rlimit(100)]
pub fn parse_xml(xml: &str) -> (r: Result<XmlDoc, InvoiceError>)
    ensures
        r matches Ok(doc) ==> doc.wf(),
        r matches Ok(doc) ==> spec_parses_to(xml@, doc),
        r matches Err(e) ==> e is Parse,
        (r is Ok) ==> spec_parse_ok(xml@),
        (r is Ok) ==> spec_parse_parents(xml@).len() < 0xFFFF_FFFE,
        !spec_parse_ok(xml@) ==> r is Err,
        (spec_parse_ok(xml@) && spec_parse_parents(xml@).len() < 0xFFFF_FFFE) ==> r is Ok,
{
    let rdoc = match x_parse(xml) {
        Result::Ok(d) => d,
        Result::Err(e) => {
            return Err(InvoiceError::Parse(x_error_text(&e)));
        },
    };
    let ghost pt = doc_parent_table(rdoc);
    let ghost ct = doc_content_table(rdoc);
    let mut nodes: Vec<XmlNode> = Vec::new();
    let mut stack: Vec<usize> = Vec::new();
    let mut i: u32 = 0;
    let mut done = false;
    while !done && i < 0xFFFF_FFFEu32
        invariant
            pt == doc_parent_table(rdoc),
            ct == doc_content_table(rdoc),
            pt == spec_parse_parents(xml@),
            ct == spec_parse_content(xml@),
            ct.len() == pt.len(),
            parent_table_wf(pt),
            spec_parse_ok(xml@),
            build_inv(nodes@, stack@),
            !done ==> nodes@.len() == i && i <= pt.len(),
            !done && i >= 1 ==> stack@ == chain_seq(pt, i - 1),
            !done && i == 0 ==> stack@ == Seq::<usize>::empty(),
            done ==> nodes@.len() == pt.len() && pt.len() < 0xFFFF_FFFE && stack@ == chain_seq(
                pt,
                pt.len() - 1,
            ),
            forall|j: int| 0 <= j < nodes@.len() ==> entry_matches(#[trigger] nodes@[j], ct[j]),
            forall|j: int|
                0 <= j < nodes@.len() && (#[trigger] nodes@[j]).end != 0 ==> nodes@[j].end
                    == spec_end_of(pt, j),
        decreases 0xFFFF_FFFEu32 - i,
    {
        match x_get_node(&rdoc, i) {
            Option::None => {
                done = true;
            },
            Option::Some(n) => {
                let entry = read_node(&n);
                match x_parent_index(&n) {
                    Option::None => {
                        // only the container root lacks a parent
                        if nodes.len() > 0 {
                            proof {
                                assert(pt[i as int] matches Some(q) && (q as int) < i as int);
                            }
                            return Err(InvoiceError::Parse(String::from_str(
                                "unexpected parentless node",
                            )));
                        }
                    },
                    Option::Some(p) => {
                        proof {
                            // the container root's entry is `None`, so this
                            // node has a predecessor, and its parent lies on
                            // the open path of the walk
                            assert(i >= 1);
                            assert(in_chain(pt, p as int, i - 1));
                            lemma_chain_last(pt, i - 1);
                        }
                        loop
                            invariant
                                pt == doc_parent_table(rdoc),
                                ct == doc_content_table(rdoc),
                                ct.len() == pt.len(),
                                parent_table_wf(pt),
                                build_inv(nodes@, stack@),
                                nodes@.len() == i,
                                1 <= i < pt.len(),
                                pt[i as int] == Some(p),
                                stack@.len() > 0,
                                (stack@.last() as int) < pt.len(),
                                stack@ == chain_seq(pt, stack@.last() as int),
                                in_chain(pt, p as int, stack@.last() as int),
                                in_chain(pt, stack@.last() as int, i - 1),
                                forall|j: int|
                                    0 <= j < nodes@.len() ==> entry_matches(
                                        #[trigger] nodes@[j],
                                        ct[j],
                                    ),
                                forall|j: int|
                                    0 <= j < nodes@.len() && (#[trigger] nodes@[j]).end != 0
                                        ==> nodes@[j].end == spec_end_of(pt, j),
                            ensures
                                pt == doc_parent_table(rdoc),
                                build_inv(nodes@, stack@),
                                nodes@.len() == i,
                                stack@.len() > 0 && stack@.last() == p,
                                stack@ == chain_seq(pt, p as int),
                                forall|j: int|
                                    0 <= j < nodes@.len() ==> entry_matches(
                                        #[trigger] nodes@[j],
                                        ct[j],
                                    ),
                                forall|j: int|
                                    0 <= j < nodes@.len() && (#[trigger] nodes@[j]).end != 0
                                        ==> nodes@[j].end == spec_end_of(pt, j),
                            decreases stack@.len(),
                        {
                            if stack.len() == 0 {
                                // unreachable: the parent is on the open path
                                return Err(InvoiceError::Parse(String::from_str(
                                    "node parent is not an open element",
                                )));
                            }
                            let t = stack[stack.len() - 1];
                            if t == p {
                                break ;
                            }
                            let ghost nodes_before = nodes@;
                            proof {
                                // `p` is a strict ancestor of `t`, so `t`'s
                                // own parent is on the path and stays on the
                                // stack after the pop; the walk leaves `t`'s
                                // subtree exactly here
                                assert(pt[t as int] is Some);
                                assert(in_chain(pt, p as int, pt[t as int]->Some_0 as int));
                                lemma_chain_step(pt, t as int, i - 1);
                                lemma_pop_end(pt, t as int, i as int, p as int);
                            }
                            close_top(&mut nodes, &mut stack);
                            proof {
                                lemma_close_preserves_content(nodes_before, nodes@, ct, t as int);
                            }
                        }
                    },
                }
                open_node(&mut nodes, &mut stack, entry);
                proof {
                    if i == 0 {
                        assert(stack@ =~= chain_seq(pt, 0));
                    } else {
                        assert(stack@ =~= chain_seq(pt, i as int));
                    }
                    assert(node_content(n) == ct[i as int]);
                }
            },
        }
        i = i + 1;
    }
    if !done {
        proof {
            assert(pt.len() >= 0xFFFF_FFFE);
        }
        return Err(InvoiceError::Parse(String::from_str("document too large")));
    }
    while stack.len() > 0
        invariant
            pt == doc_parent_table(rdoc),
            ct == doc_content_table(rdoc),
            ct.len() == pt.len(),
            parent_table_wf(pt),
            build_inv(nodes@, stack@),
            nodes@.len() == pt.len(),
            stack@.len() > 0 ==> ((stack@.last() as int) < pt.len() && stack@ == chain_seq(
                pt,
                stack@.last() as int,
            ) && in_chain(pt, stack@.last() as int, pt.len() - 1)),
            forall|j: int| 0 <= j < nodes@.len() ==> entry_matches(#[trigger] nodes@[j], ct[j]),
            forall|j: int|
                0 <= j < nodes@.len() && (#[trigger] nodes@[j]).end != 0 ==> nodes@[j].end
                    == spec_end_of(pt, j),
        decreases stack@.len(),
    {
        let t = stack[stack.len() - 1];
        let ghost nodes_before = nodes@;
        proof {
            // the walk has ended: everything after `t` is its descendant
            lemma_final_end(pt, t as int);
            lemma_chain_last(pt, t as int);
            match pt[t as int] {
                Option::Some(q) => {
                    lemma_chain_step(pt, t as int, pt.len() - 1);
                },
                Option::None => {
                    assert(t == 0);
                    assert(chain_seq(pt, 0).drop_last() =~= Seq::<usize>::empty());
                },
            }
        }
        close_top(&mut nodes, &mut stack);
        proof {
            lemma_close_preserves_content(nodes_before, nodes@, ct, t as int);
        }
    }
    let doc = XmlDoc { nodes };
    proof {
        assert(stack@ =~= Seq::<usize>::empty());
        lemma_build_inv_closed(doc);
        assert forall|j: int| 0 <= j < doc.nodes@.len() implies (#[trigger] doc.nodes@[j]).end
            == spec_end_of(spec_parse_parents(xml@), j) by {
            assert(j < doc.nodes@[j].end);
        }
    }
    Ok(doc)
}

/// Reads one node's own data (kind, name, text, attributes) into an arena
/// entry that carries the node's content and whose subtree range is still
/// open.
fn read_node(n: &roxmltree::Node<'_, '_>) -> (entry: XmlNode)
    ensures
        entry.end == 0,
        entry_matches(entry, node_content(*n)),
{
    let mut kind = XmlNodeKind::Other;
    let mut name = String::new();
    let mut text = String::new();
    let mut attrs: Vec<(String, String, bool)> = Vec::new();
    proof {
        assert(attrs_view(attrs@) =~= Seq::<(Seq<char>, Seq<char>, bool)>::empty());
    }
    if x_is_element(n) {
        kind = XmlNodeKind::Element;
        name = x_local_name(n);
        let cnt = x_attr_count(n);
        proof {
            assert(attrs_view(attrs@) =~= node_content(*n).attrs.take(0));
        }
        let mut j: usize = 0;
        while j < cnt
            invariant
                node_content(*n).kind is Element,
                cnt == node_content(*n).attrs.len(),
                0 <= j <= cnt,
                attrs_view(attrs@) == node_content(*n).attrs.take(j as int),
            decreases cnt - j,
        {
            match x_attr_at(n, j) {
                Option::Some(a) => {
                    let ghost prev = attrs@;
                    attrs.push(a);
                    proof {
                        assert(attrs_view(prev.push(a)) =~= attrs_view(prev).push(
                            (a.0@, a.1@, a.2),
                        ));
                        assert(node_content(*n).attrs.take(j as int + 1) =~= node_content(
                            *n,
                        ).attrs.take(j as int).push(node_content(*n).attrs[j as int]));
                    }
                },
                Option::None => {
                    proof {
                        assert(false);
                    }
                },
            }
            j = j + 1;
        }
        proof {
            assert(node_content(*n).attrs.take(cnt as int) =~= node_content(*n).attrs);
        }
    } else if x_is_text(n) {
        kind = XmlNodeKind::Text;
        match x_text(n) {
            Option::Some(t) => {
                text = t;
            },
            Option::None => {
                proof {
                    assert(false);
                }
            },
        }
    }
    XmlNode { kind, name, text, attrs, end: 0 }
}

} // verus!
