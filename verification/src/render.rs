//! The tree pretty-printer: the root line, then every node indented one tab
//! per level, directories annotated `(dir)` and files with their size.

use vstd::prelude::*;
use crate::fstree::{FileSystem, SpecNode, SpecNodeData, nodes_wf, children_ascending, NodeData};

verus! {

/// The character of one decimal digit.
pub open spec fn digit_char(d: int) -> char {
    (48 + d) as char
}

/// The decimal rendering of `n`, most significant digit first.
pub open spec fn spec_dec_string(n: int) -> Seq<char>
    decreases n,
        when n >= 0
{
    if n < 10 {
        seq![digit_char(n)]
    } else {
        spec_dec_string(n / 10).push(digit_char(n % 10))
    }
}

/// `depth` tab characters.
pub open spec fn spec_tabs(depth: int) -> Seq<char>
    decreases depth,
{
    if depth <= 0 {
        Seq::empty()
    } else {
        spec_tabs(depth - 1).push('\t')
    }
}

/// The rendered subtree at `i`: its own line at `depth` tabs, then (for a
/// directory) each child's rendering one level deeper.
pub open spec fn spec_render_node(nodes: Seq<SpecNode>, i: int, depth: int) -> Seq<char>
    decreases nodes.len() - i, nodes[i].children.len() + 1,
        when 0 <= i < nodes.len() && children_ascending(nodes)
{
    match nodes[i].data {
        SpecNodeData::File { name, size } => spec_tabs(depth) + name + seq![' ', '(']
            + spec_dec_string(size) + seq![')', '\n'],
        SpecNodeData::Directory { name } => (spec_tabs(depth) + name + seq![
            ' ',
            '(',
            'd',
            'i',
            'r',
            ')',
            '\n',
        ]) + spec_render_from(nodes, i, 0, depth + 1),
    }
}

/// The concatenated renderings of children `k..` of the node at `i`.
pub open spec fn spec_render_from(nodes: Seq<SpecNode>, i: int, k: int, depth: int) -> Seq<char>
    decreases nodes.len() - i, nodes[i].children.len() - k,
        when 0 <= i < nodes.len() && 0 <= k <= nodes[i].children.len() && children_ascending(nodes)
{
    if k == nodes[i].children.len() {
        Seq::empty()
    } else {
        spec_render_node(nodes, nodes[i].children[k], depth) + spec_render_from(
            nodes,
            i,
            k + 1,
            depth,
        )
    }
}

/// The whole tree rendered: the root shown as `/`, children at one tab.
pub open spec fn spec_render(nodes: Seq<SpecNode>) -> Seq<char> {
    seq!['/', '\n'] + spec_render_from(nodes, 0, 0, 1)
}

/// The renderings of children `0..k` of the node at `i`, in order.
pub open spec fn spec_render_prefix(nodes: Seq<SpecNode>, i: int, k: int, depth: int) -> Seq<char>
    decreases k,
        when 0 <= i < nodes.len() && 0 <= k <= nodes[i].children.len() && children_ascending(nodes)
{
    if k <= 0 {
        Seq::empty()
    } else {
        spec_render_prefix(nodes, i, k - 1, depth) + spec_render_node(
            nodes,
            nodes[i].children[k - 1],
            depth,
        )
    }
}

proof fn lemma_render_prefix_full(nodes: Seq<SpecNode>, i: int, k: int, depth: int)
    requires
        nodes_wf(nodes),
        0 <= i < nodes.len(),
        0 <= k <= nodes[i].children.len(),
    ensures
        spec_render_prefix(nodes, i, k, depth) + spec_render_from(nodes, i, k, depth)
            == spec_render_from(nodes, i, 0, depth),
    decreases k,
{
    if k == 0 {
        assert(Seq::<char>::empty() + spec_render_from(nodes, i, 0, depth) =~= spec_render_from(
            nodes,
            i,
            0,
            depth,
        ));
    } else {
        lemma_render_prefix_full(nodes, i, k - 1, depth);
        assert((spec_render_prefix(nodes, i, k - 1, depth) + spec_render_node(
            nodes,
            nodes[i].children[k - 1],
            depth,
        )) + spec_render_from(nodes, i, k, depth) =~= spec_render_prefix(nodes, i, k - 1, depth) + (
        spec_render_node(nodes, nodes[i].children[k - 1], depth) + spec_render_from(
            nodes,
            i,
            k,
            depth,
        )));
    }
}

/// The text of one decimal digit.
fn digit_str(d: usize) -> (r: &'static str)
    requires
        d < 10,
    ensures
        r@ == seq![digit_char(d as int)],
{
    let r: &'static str = match d {
        0 => "0",
        1 => "1",
        2 => "2",
        3 => "3",
        4 => "4",
        5 => "5",
        6 => "6",
        7 => "7",
        8 => "8",
        _ => "9",
    };
    proof {
        reveal_strlit("0");
        reveal_strlit("1");
        reveal_strlit("2");
        reveal_strlit("3");
        reveal_strlit("4");
        reveal_strlit("5");
        reveal_strlit("6");
        reveal_strlit("7");
        reveal_strlit("8");
        reveal_strlit("9");
        assert(r@ =~= seq![digit_char(d as int)]);
    }
    r
}

/// Renders `n` in decimal.
pub fn usize_to_dec(n: usize) -> (r: String)
    ensures
        r@ == spec_dec_string(n as int),
    decreases n,
{
    if n < 10 {
        String::from_str(digit_str(n))
    } else {
        let mut s = usize_to_dec(n / 10);
        s.append(digit_str(n % 10));
        proof {
            assert(spec_dec_string((n / 10) as int).push(digit_char(n as int % 10))
                =~= spec_dec_string((n / 10) as int) + seq![digit_char(n as int % 10)]);
        }
        s
    }
}

impl FileSystem {
    /// Appends to `out` the rendering of the subtree at `node_id`, its own
    /// line indented by `depth` tabs.
    pub fn render_node(&self, out: &mut String, node_id: usize, depth: usize)
        requires
            self.wf(),
            node_id < self@.len(),
            depth + (self@.len() - node_id) <= usize::MAX,
        ensures
            final(out)@ == old(out)@ + spec_render_node(self@, node_id as int, depth as int),
        decreases self@.len() - node_id,
    {
        let ghost i = node_id as int;
        proof {
            reveal_strlit("\t");
            reveal_strlit(" (");
            reveal_strlit(")\n");
            reveal_strlit(" (dir)\n");
        }
        let mut d: usize = 0;
        while d < depth
            invariant
                0 <= d <= depth,
                out@ == old(out)@ + spec_tabs(d as int),
            decreases depth - d,
        {
            out.append("\t");
            proof {
                reveal_strlit("\t");
                assert(spec_tabs(d as int + 1) =~= spec_tabs(d as int) + "\t"@);
                assert(old(out)@ + spec_tabs(d as int + 1) =~= (old(out)@ + spec_tabs(d as int))
                    + "\t"@);
            }
            d = d + 1;
        }
        match &self.nodes[node_id].data {
            NodeData::File { name, size } => {
                out.append(name.as_str());
                out.append(" (");
                let dec = usize_to_dec(*size);
                out.append(dec.as_str());
                out.append(")\n");
                proof {
                    assert(" ("@ =~= seq![' ', '(']);
                    assert(")\n"@ =~= seq![')', '\n']);
                    assert(out@ =~= old(out)@ + spec_render_node(self@, i, depth as int));
                }
            },
            NodeData::Directory { name } => {
                out.append(name.as_str());
                out.append(" (dir)\n");
                proof {
                    assert(" (dir)\n"@ =~= seq![' ', '(', 'd', 'i', 'r', ')', '\n']);
                }
                let ghost head = old(out)@ + (spec_tabs(depth as int) + self@[i].data->Directory_name
                    + seq![' ', '(', 'd', 'i', 'r', ')', '\n']);
                assert(out@ =~= head);
                let children = &self.nodes[node_id].children;
                let mut k: usize = 0;
                while k < children.len()
                    invariant
                        self.wf(),
                        node_id < self@.len(),
                        i == node_id as int,
                        self@[i].data is Directory,
                        depth + (self@.len() - node_id) <= usize::MAX,
                        children@ == self.nodes@[i].children@,
                        children@.map_values(|c: usize| c as int) == self@[i].children,
                        0 <= k <= children.len(),
                        out@ == head + spec_render_prefix(self@, i, k as int, depth as int + 1),
                    decreases children.len() - k,
                {
                    let child = children[k];
                    proof {
                        assert(self@[i].children[k as int] == child as int);
                    }
                    self.render_node(out, child, depth + 1);
                    proof {
                        assert(out@ =~= head + spec_render_prefix(
                            self@,
                            i,
                            k as int + 1,
                            depth as int + 1,
                        ));
                    }
                    k = k + 1;
                }
                proof {
                    lemma_render_prefix_full(self@, i, k as int, depth as int + 1);
                    assert(out@ =~= old(out)@ + spec_render_node(self@, i, depth as int));
                }
            },
        }
    }

    /// Renders the whole tree; the text is a pure function of the tree, so
    /// rendering twice always yields identical text.
    pub fn render(&self) -> (r: String)
        requires
            self.wf(),
        ensures
            r@ == spec_render(self@),
    {
        let mut out = String::from_str("/\n");
        proof {
            reveal_strlit("/\n");
            assert(out@ =~= seq!['/', '\n']);
        }
        let ghost head = seq!['/', '\n'];
        let n_nodes = self.nodes.len();
        let children = &self.nodes[0].children;
        let mut k: usize = 0;
        while k < children.len()
            invariant
                self.wf(),
                self@.len() == n_nodes as int,
                children@ == self.nodes@[0].children@,
                children@.map_values(|c: usize| c as int) == self@[0].children,
                0 <= k <= children.len(),
                out@ == head + spec_render_prefix(self@, 0, k as int, 1),
            decreases children.len() - k,
        {
            let child = children[k];
            proof {
                assert(self@[0].children[k as int] == child as int);
                assert(child as int > 0);
            }
            self.render_node(&mut out, child, 1);
            proof {
                assert(out@ =~= head + spec_render_prefix(self@, 0, k as int + 1, 1));
            }
            k = k + 1;
        }
        proof {
            lemma_render_prefix_full(self@, 0, k as int, 1);
            assert(out@ =~= spec_render(self@));
        }
        out
    }
}

/// Rendering the same tree twice yields identical text: the rendered text is
/// determined by the tree alone.
pub proof fn lemma_render_idempotent(fs: FileSystem, first: Seq<char>, second: Seq<char>)
    requires
        first == spec_render(fs@),
        second == spec_render(fs@),
    ensures
        first == second,
{
}

} // verus!
