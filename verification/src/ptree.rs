//! The protocol-layer tree shown for a captured packet, and its flattening
//! into display rows.
//!
//! A node is a header when it carries a non-empty layer type; header rows
//! get a `[-]` or `[+]` marker depending on whether their layer type is in
//! the expanded set, and only expanded headers show their children.
//! The expanded set is kept as a plain vector of layer-type names.

use vstd::prelude::*;
use crate::text::str_eq;

verus! {

/// One node of the protocol tree: a display label, the nested fields, and
/// the layer type (empty for plain value rows).
pub struct ProtocolNode {
    pub label: String,
    pub children: Vec<ProtocolNode>,
    pub layer_type: String,
}

/// A leaf row with no layer type.
pub fn simple_node(text: String) -> (r: ProtocolNode)
    ensures
        r.label == text,
        r.children@.len() == 0,
        r.layer_type@.len() == 0,
{
    ProtocolNode { label: text, children: Vec::new(), layer_type: String::new() }
}

/// The names in an expanded-set vector.
pub open spec fn names_view(v: Seq<String>) -> Seq<Seq<char>> {
    v.map(|i: int, s: String| s@)
}

/// Whether `name` is in the expanded set.
pub fn contains_name(v: &Vec<String>, name: &str) -> (r: bool)
    ensures
        r == names_view(v@).contains(name@),
{
    let mut i: usize = 0;
    while i < v.len()
        invariant
            i <= v@.len(),
            forall|j: int| 0 <= j < i ==> names_view(v@)[j] != name@,
        decreases v@.len() - i,
    {
        if str_eq(v[i].as_str(), name) {
            assert(names_view(v@)[i as int] == name@);
            return true;
        }
        i = i + 1;
    }
    assert(forall|j: int| 0 <= j < v@.len() ==> names_view(v@)[j] != name@);
    false
}

/// The label text of a node's display row: headers carry the fold marker.
pub open spec fn entry_label(n: ProtocolNode, exp: Seq<Seq<char>>) -> Seq<char> {
    if n.layer_type@.len() == 0 {
        n.label@
    } else if exp.contains(n.layer_type@) {
        "[-] "@ + n.label@
    } else {
        "[+] "@ + n.label@
    }
}

/// The display rows of one node: its own row, then - when the node is no
/// header or is expanded - the rows of its children, one level deeper.
pub open spec fn flatten_node(n: ProtocolNode, depth: int, exp: Seq<Seq<char>>) -> Seq<
    (int, Seq<char>, bool),
>
    decreases n,
{
    let header = n.layer_type@.len() != 0;
    let row = (depth, entry_label(n, exp), header);
    if !header || exp.contains(n.layer_type@) {
        seq![row] + flatten_seq(n.children@, depth + 1, exp)
    } else {
        seq![row]
    }
}

/// The display rows of a node list, in order.
pub open spec fn flatten_seq(ns: Seq<ProtocolNode>, depth: int, exp: Seq<Seq<char>>) -> Seq<
    (int, Seq<char>, bool),
>
    decreases ns,
{
    if ns.len() == 0 {
        Seq::empty()
    } else {
        flatten_node(ns[0], depth, exp) + flatten_seq(
            ns.subrange(1, ns.len() as int),
            depth,
            exp,
        )
    }
}

/// The height of one node: one more than its tallest child.
pub open spec fn node_height(n: ProtocolNode) -> nat
    decreases n,
{
    1 + seq_height(n.children@)
}

/// The height of the tallest node in a list.
pub open spec fn seq_height(ns: Seq<ProtocolNode>) -> nat
    decreases ns,
{
    if ns.len() == 0 {
        0
    } else {
        let h0 = node_height(ns[0]);
        let hr = seq_height(ns.subrange(1, ns.len() as int));
        if h0 >= hr {
            h0
        } else {
            hr
        }
    }
}

/// The flattened rows as they are held in the output vector.
pub open spec fn entries_view(s: Seq<(usize, String, bool)>) -> Seq<(int, Seq<char>, bool)> {
    s.map(|i: int, e: (usize, String, bool)| (e.0 as int, e.1@, e.2))
}

/// Appends the display rows of `nodes` at `depth` to `out`, exactly as
/// [`flatten_seq`] lays them out.
pub fn build_flat_list(
    nodes: &[ProtocolNode],
    depth: usize,
    expanded: &Vec<String>,
    out: &mut Vec<(usize, String, bool)>,
)
    requires
        depth + seq_height(nodes@) <= usize::MAX,
    ensures
        entries_view(final(out)@) == entries_view(old(out)@) + flatten_seq(
            nodes@,
            depth as int,
            names_view(expanded@),
        ),
    decreases nodes@,
{
    let ghost exp = names_view(expanded@);
    if nodes.len() == 0 {
        proof {
            assert(entries_view(out@) =~= entries_view(out@) + flatten_seq(
                nodes@,
                depth as int,
                exp,
            ));
        }
        return;
    }
    let node = &nodes[0];
    let is_header = !node.layer_type.as_str().is_empty();
    let is_expanded = contains_name(expanded, node.layer_type.as_str());
    let mut t = String::new();
    if is_header {
        if is_expanded {
            t.append("[-] ");
        } else {
            t.append("[+] ");
        }
    }
    t.append(node.label.as_str());
    proof {
        assert(t@ == entry_label(nodes@[0], exp));
    }
    let ghost out0 = out@;
    out.push((depth, t, is_header));
    proof {
        assert(entries_view(out@) =~= entries_view(out0) + seq![
            (depth as int, entry_label(nodes@[0], exp), is_header),
        ]);
    }
    if is_expanded || !is_header {
        proof {
            assert(seq_height(nodes@) >= node_height(nodes@[0]));
        }
        build_flat_list(node.children.as_slice(), depth + 1, expanded, out);
    }
    let ghost out1 = out@;
    proof {
        let row = (depth as int, entry_label(nodes@[0], exp), is_header);
        if is_expanded || !is_header {
            assert(entries_view(out1) =~= (entries_view(out0) + seq![row]) + flatten_seq(
                nodes@[0].children@,
                depth + 1,
                exp,
            ));
            assert(flatten_node(nodes@[0], depth as int, exp) =~= seq![row] + flatten_seq(
                nodes@[0].children@,
                depth + 1,
                exp,
            ));
            assert(entries_view(out1) =~= entries_view(out0) + flatten_node(
                nodes@[0],
                depth as int,
                exp,
            ));
        } else {
            assert(flatten_node(nodes@[0], depth as int, exp) =~= seq![row]);
            assert(entries_view(out1) =~= entries_view(out0) + flatten_node(
                nodes@[0],
                depth as int,
                exp,
            ));
        }
    }
    let rest = vstd::slice::slice_subrange(nodes, 1, nodes.len());
    proof {
        assert(seq_height(nodes@) >= seq_height(nodes@.subrange(1, nodes@.len() as int)));
    }
    build_flat_list(rest, depth, expanded, out);
    proof {
        assert(entries_view(out@) =~= entries_view(out1) + flatten_seq(
            nodes@.subrange(1, nodes@.len() as int),
            depth as int,
            exp,
        ));
        assert(flatten_seq(nodes@, depth as int, exp) =~= flatten_node(
            nodes@[0],
            depth as int,
            exp,
        ) + flatten_seq(nodes@.subrange(1, nodes@.len() as int), depth as int, exp));
        assert(entries_view(out@) =~= entries_view(out0) + flatten_seq(nodes@, depth as int, exp));
    }
}

} // verus!
