//! The directory tree: an arena of nodes indexed by position, built once by
//! replaying a shell transcript and then queried for directory sizes.
//!
//! The parent link is an index, never an owning edge, so ownership stays a
//! forest in one array. Every node but the root (index 0) has exactly one
//! parent; children always carry larger indices than their parent, which keeps
//! the tree acyclic and gives every traversal its termination measure.

use vstd::prelude::*;
use crate::transcript::{Input, SpecInput, spec_parse, parse_line};

verus! {

/// What one node holds: a named file of fixed size, or a named directory.
#[derive(Debug)]
pub enum NodeData {
    File { name: String, size: usize },
    Directory { name: String },
}

/// One arena slot: payload, parent index and child indices.
#[derive(Debug)]
pub struct FsNode {
    pub data: NodeData,
    pub parent: Option<usize>,
    pub children: Vec<usize>,
}

/// The tree: node 0 is the root directory and owns all descendants.
#[derive(Debug)]
pub struct FileSystem {
    pub nodes: Vec<FsNode>,
}

/// The mathematical payload of a node.
pub ghost enum SpecNodeData {
    File { name: Seq<char>, size: int },
    Directory { name: Seq<char> },
}

/// The mathematical shape of one arena slot.
pub ghost struct SpecNode {
    pub data: SpecNodeData,
    pub parent: Option<int>,
    pub children: Seq<int>,
}

impl View for NodeData {
    type V = SpecNodeData;

    open spec fn view(&self) -> SpecNodeData {
        match self {
            NodeData::File { name, size } => SpecNodeData::File {
                name: name@,
                size: *size as int,
            },
            NodeData::Directory { name } => SpecNodeData::Directory { name: name@ },
        }
    }
}

impl View for FsNode {
    type V = SpecNode;

    open spec fn view(&self) -> SpecNode {
        SpecNode {
            data: self.data@,
            parent: match self.parent {
                Some(p) => Some(p as int),
                None => None,
            },
            children: self.children@.map_values(|c: usize| c as int),
        }
    }
}

impl View for FileSystem {
    type V = Seq<SpecNode>;

    open spec fn view(&self) -> Seq<SpecNode> {
        self.nodes@.map_values(|n: FsNode| n@)
    }
}

/// The arena invariants: node 0 is the root directory with no parent; every
/// child index is larger than its parent's and in range; child and parent
/// links agree; every non-root node hangs under exactly one parent; files
/// have no children; file sizes are non-negative.
pub open spec fn nodes_wf(nodes: Seq<SpecNode>) -> bool {
    &&& nodes.len() >= 1
    &&& nodes[0].parent is None
    &&& nodes[0].data is Directory
    &&& children_ascending(nodes)
    &&& forall|i: int, k: int|
        0 <= i < nodes.len() && 0 <= k < nodes[i].children.len() ==> nodes[#[trigger] nodes[i].children[k]].parent
            == Some(i)
    &&& forall|j: int|
        1 <= j < nodes.len() ==> ((#[trigger] nodes[j].parent) matches Some(p) && 0 <= p < j
            && nodes[p].children.contains(j))
    &&& forall|i: int|
        0 <= i < nodes.len() && nodes[i].data is File ==> (#[trigger] nodes[i].children).len() == 0
    &&& forall|i: int|
        0 <= i < nodes.len() ==> ((#[trigger] nodes[i].data) matches SpecNodeData::File { size, .. }
            ==> size >= 0)
}

/// `n` is a directory bearing `name`.
pub open spec fn is_dir_named(n: SpecNode, name: Seq<char>) -> bool {
    n.data matches SpecNodeData::Directory { name: nm } && nm == name
}

/// The first index among `children` (creation order) naming a directory
/// called `name`; files and later duplicates are passed over.
pub open spec fn first_subdir(nodes: Seq<SpecNode>, children: Seq<int>, name: Seq<char>) -> Option<
    int,
>
    decreases children.len(),
{
    if children.len() == 0 {
        None
    } else if 0 <= children[0] < nodes.len() && is_dir_named(nodes[children[0]], name) {
        Some(children[0])
    } else {
        first_subdir(nodes, children.skip(1), name)
    }
}

/// What `first_subdir` returns: the match at the smallest position, so a
/// duplicate sibling name resolves to the first-created directory.
pub proof fn lemma_first_subdir_is_first_match(
    nodes: Seq<SpecNode>,
    children: Seq<int>,
    name: Seq<char>,
)
    ensures
        match first_subdir(nodes, children, name) {
            Some(ix) => exists|k: int|
                0 <= k < children.len() && children[k] == ix && 0 <= ix < nodes.len()
                    && is_dir_named(nodes[ix], name) && (forall|j: int|
                    0 <= j < k ==> !(0 <= children[j] < nodes.len() && is_dir_named(
                        nodes[children[j]],
                        name,
                    ))),
            None => forall|k: int|
                0 <= k < children.len() ==> !(0 <= children[k] < nodes.len() && is_dir_named(
                    nodes[#[trigger] children[k]],
                    name,
                )),
        },
    decreases children.len(),
{
    if children.len() > 0 {
        if 0 <= children[0] < nodes.len() && is_dir_named(nodes[children[0]], name) {
            assert(children[0] == first_subdir(nodes, children, name)->Some_0);
        } else {
            lemma_first_subdir_is_first_match(nodes, children.skip(1), name);
            match first_subdir(nodes, children.skip(1), name) {
                Some(ix) => {
                    let k = choose|k: int|
                        0 <= k < children.skip(1).len() && children.skip(1)[k] == ix && 0 <= ix
                            < nodes.len() && is_dir_named(nodes[ix], name) && (forall|j: int|
                            0 <= j < k ==> !(0 <= children.skip(1)[j] < nodes.len() && is_dir_named(
                                nodes[children.skip(1)[j]],
                                name,
                            )));
                    assert(children[k + 1] == ix);
                    assert(forall|j: int|
                        0 <= j < k + 1 ==> !(0 <= children[j] < nodes.len() && is_dir_named(
                            nodes[children[j]],
                            name,
                        ))) by {
                        assert(forall|j: int| 1 <= j < k + 1 ==> children[j] == children.skip(1)[j - 1]);
                    }
                },
                None => {
                    assert(forall|k: int|
                        1 <= k < children.len() ==> children[k] == children.skip(1)[k - 1]);
                },
            }
        }
    }
}

impl FsNode {
    /// The node is a directory bearing `aname`.
    pub fn is_named(&self, aname: &str) -> (r: bool)
        ensures
            r == is_dir_named(self@, aname@),
    {
        match &self.data {
            NodeData::Directory { name } => crate::strcmp::str_eq(name.as_str(), aname),
            NodeData::File { .. } => false,
        }
    }
}

impl FileSystem {
    /// The arena invariants hold.
    pub open spec fn wf(self) -> bool {
        nodes_wf(self@)
    }

    /// Looks up the first child directory of `folder` called `name`; with
    /// duplicate sibling names the first-created one wins.
    pub fn get_subfolder(&self, folder: usize, name: &str) -> (r: Option<usize>)
        requires
            self.wf(),
            folder < self@.len(),
        ensures
            match r {
                Some(ix) => first_subdir(self@, self@[folder as int].children, name@) == Some(
                    ix as int,
                ) && ix < self@.len() && self@[ix as int].data is Directory,
                None => first_subdir(self@, self@[folder as int].children, name@) is None,
            },
    {
        let children = &self.nodes[folder].children;
        let ghost cs = self@[folder as int].children;
        assert(cs.skip(0) =~= cs);
        let mut k: usize = 0;
        while k < children.len()
            invariant
                0 <= k <= children.len(),
                children@ == self.nodes@[folder as int].children@,
                cs == self@[folder as int].children,
                cs == children@.map_values(|c: usize| c as int),
                folder < self@.len(),
                self.wf(),
                first_subdir(self@, cs, name@) == first_subdir(self@, cs.skip(k as int), name@),
            decreases children.len() - k,
        {
            let child = children[k];
            assert(cs.skip(k as int)[0] == child as int);
            assert(child < self@.len());
            if self.nodes[child].is_named(name) {
                return Some(child);
            }
            assert(cs.skip(k as int).skip(1) =~= cs.skip(k as int + 1));
            k = k + 1;
        }
        assert(cs.skip(k as int).len() == 0);
        None
    }

    /// The parent directory of `folder`, `None` at the root.
    pub fn get_parentfolder(&self, folder: usize) -> (r: Option<usize>)
        requires
            folder < self@.len(),
        ensures
            self@[folder as int].parent == match r {
                Some(p) => Some(p as int),
                None => None::<int>,
            },
    {
        self.nodes[folder].parent
    }
}

/// The two navigation faults that make a transcript ill-formed.
#[derive(Clone, Copy, Debug, PartialEq, Eq, Structural)]
pub enum NavError {
    NoParent,
    MissingChild,
}

/// A fatal build fault: which navigation failed, and on which transcript line.
#[derive(Clone, Copy, Debug, PartialEq, Eq, Structural)]
pub struct BuildError {
    pub kind: NavError,
    pub line: usize,
}

/// The replay state: the arena so far and the cursor (current directory).
pub ghost struct BuildState {
    pub nodes: Seq<SpecNode>,
    pub cursor: int,
}

pub open spec fn root_name() -> Seq<char> {
    seq!['r', 'o', 'o', 't']
}

/// The state before any line is replayed: a lone root directory.
pub open spec fn init_state() -> BuildState {
    BuildState {
        nodes: seq![
            SpecNode {
                data: SpecNodeData::Directory { name: root_name() },
                parent: None,
                children: Seq::empty(),
            },
        ],
        cursor: 0,
    }
}

/// A state the replay can actually be in: a well-formed arena whose cursor
/// rests on a directory.
pub open spec fn state_wf(st: BuildState) -> bool {
    &&& nodes_wf(st.nodes)
    &&& 0 <= st.cursor < st.nodes.len()
    &&& st.nodes[st.cursor].data is Directory
}

/// Appends a fresh node under the cursor: the new slot takes the next index,
/// points back at the cursor, and is recorded among the cursor's children.
pub open spec fn add_node(st: BuildState, data: SpecNodeData) -> BuildState {
    let n = st.nodes.len() as int;
    let cur_node = st.nodes[st.cursor];
    BuildState {
        nodes: st.nodes.update(
            st.cursor,
            SpecNode { children: cur_node.children.push(n), ..cur_node },
        ).push(SpecNode { data, parent: Some(st.cursor), children: Seq::empty() }),
        cursor: st.cursor,
    }
}

/// One transcript line applied to the state: entries add nodes, `$ ls` and
/// malformed lines change nothing, and `$ cd` moves the cursor — to the root,
/// to the parent (a fault at the root), or to the first matching child
/// directory (a fault when none exists).
pub open spec fn spec_step(st: BuildState, line: Seq<char>) -> Result<BuildState, NavError> {
    match spec_parse(line) {
        None => Ok(st),
        Some(SpecInput::Ls) => Ok(st),
        Some(SpecInput::Dir { name }) => Ok(add_node(st, SpecNodeData::Directory { name })),
        Some(SpecInput::File { name, size }) => Ok(add_node(st, SpecNodeData::File { name, size })),
        Some(SpecInput::Cd { target }) => {
            if target == seq!['/'] {
                Ok(BuildState { cursor: 0, nodes: st.nodes })
            } else if target == seq!['.', '.'] {
                match st.nodes[st.cursor].parent {
                    Some(p) => Ok(BuildState { cursor: p, nodes: st.nodes }),
                    None => Err(NavError::NoParent),
                }
            } else {
                match first_subdir(st.nodes, st.nodes[st.cursor].children, target) {
                    Some(ix) => Ok(BuildState { cursor: ix, nodes: st.nodes }),
                    None => Err(NavError::MissingChild),
                }
            }
        },
    }
}

/// Replays `lines[i..]` from `st`; a fault reports the offending line index.
pub open spec fn spec_replay(lines: Seq<Seq<char>>, i: int, st: BuildState) -> Result<
    BuildState,
    (int, NavError),
>
    decreases lines.len() - i,
{
    if i < 0 || i >= lines.len() {
        Ok(st)
    } else {
        match spec_step(st, lines[i]) {
            Ok(st2) => spec_replay(lines, i + 1, st2),
            Err(e) => Err((i, e)),
        }
    }
}

/// The whole transcript replayed from the lone root.
pub open spec fn spec_build(lines: Seq<Seq<char>>) -> Result<BuildState, (int, NavError)> {
    spec_replay(lines, 0, init_state())
}

/// Appending a node preserves every arena invariant.
pub proof fn lemma_add_node_wf(st: BuildState, data: SpecNodeData)
    requires
        state_wf(st),
        data matches SpecNodeData::File { size, .. } ==> size >= 0,
    ensures
        state_wf(add_node(st, data)),
{
    let st2 = add_node(st, data);
    let ns = st2.nodes;
    let old_ns = st.nodes;
    let c = st.cursor;
    let n = old_ns.len() as int;
    assert forall|j: int| 1 <= j < ns.len() implies ((#[trigger] ns[j].parent) matches Some(p)
        && 0 <= p < j && ns[p].children.contains(j)) by {
        if j < n {
            let p = old_ns[j].parent->Some_0;
            assert(old_ns[p].children.contains(j));
            let k = choose|k: int| 0 <= k < old_ns[p].children.len() && old_ns[p].children[k] == j;
            if p == c {
                assert(ns[p].children[k] == j);
            } else {
                assert(ns[p].children[k] == j);
            }
        } else {
            assert(ns[j].parent == Some(c));
            assert(ns[c].children[ns[c].children.len() - 1] == j);
        }
    }
    assert(state_wf(st2));
}

/// Every step that does not fault leads to another well-formed state.
pub proof fn lemma_step_wf(st: BuildState, line: Seq<char>)
    requires
        state_wf(st),
    ensures
        spec_step(st, line) matches Ok(st2) ==> state_wf(st2),
{
    match spec_parse(line) {
        Some(SpecInput::Dir { name }) => {
            lemma_add_node_wf(st, SpecNodeData::Directory { name });
        },
        Some(SpecInput::File { name, size }) => {
            let size_tok = line.take(crate::scan::token_end(line, ' ', 0));
            crate::digits::lemma_dec_value_nonneg(size_tok);
            lemma_add_node_wf(st, SpecNodeData::File { name, size });
        },
        Some(SpecInput::Cd { target }) => {
            if target == seq!['/'] {
            } else if target == seq!['.', '.'] {
                match st.nodes[st.cursor].parent {
                    Some(p) => {
                        assert(st.cursor != 0);
                        assert(st.nodes[p].children.contains(st.cursor));
                        assert(st.nodes[p].data is Directory);
                    },
                    None => {},
                }
            } else {
                lemma_first_subdir_is_first_match(
                    st.nodes,
                    st.nodes[st.cursor].children,
                    target,
                );
            }
        },
        _ => {},
    }
}

impl FileSystem {
    /// Builds the tree by replaying the whole transcript in order. A malformed
    /// line is skipped; a navigation fault stops construction and reports the
    /// offending line.
    pub fn build(lines: &Vec<String>) -> (r: Result<FileSystem, BuildError>)
        ensures
            match r {
                Ok(fs) => fs.wf() && (spec_build(lines.deep_view()) matches Ok(st) && fs@
                    == st.nodes),
                Err(e) => spec_build(lines.deep_view()) == Err::<BuildState, (int, NavError)>(
                    (e.line as int, e.kind),
                ),
            },
    {
        let mut fs = FileSystem { nodes: Vec::new() };
        fs.nodes.push(
            FsNode {
                data: NodeData::Directory { name: String::from_str("root") },
                parent: None,
                children: Vec::new(),
            },
        );
        let mut cur: usize = 0;
        proof {
            reveal_strlit("root");
            assert("root"@ =~= root_name());
            assert(fs@[0].children =~= Seq::<int>::empty());
            assert(fs@[0] == init_state().nodes[0]);
            assert(fs@ =~= init_state().nodes);
        }
        let ghost ldv = lines.deep_view();
        let mut li: usize = 0;
        while li < lines.len()
            invariant
                li <= lines.len(),
                ldv == lines.deep_view(),
                cur < fs.nodes.len(),
                state_wf(BuildState { nodes: fs@, cursor: cur as int }),
                spec_build(ldv) == spec_replay(
                    ldv,
                    li as int,
                    BuildState { nodes: fs@, cursor: cur as int },
                ),
            decreases lines.len() - li,
        {
            let ghost st = BuildState { nodes: fs@, cursor: cur as int };
            let ghost line = ldv[li as int];
            assert(line == lines@[li as int]@);
            proof {
                lemma_step_wf(st, line);
            }
            match parse_line(lines[li].as_str()) {
                Err(_) => {},
                Ok(Input::ListCmd) => {},
                Ok(Input::DirectoryEntry { name }) => {
                    let ghost gname = name@;
                    let n = fs.nodes.len();
                    fs.nodes.push(
                        FsNode {
                            data: NodeData::Directory { name },
                            parent: Some(cur),
                            children: Vec::new(),
                        },
                    );
                    fs.nodes[cur].children.push(n);
                    proof {
                        let target = add_node(st, SpecNodeData::Directory { name: gname }).nodes;
                        assert forall|idx: int| 0 <= idx < fs@.len() implies fs@[idx] == target[idx] by {
                            if idx == cur as int {
                                assert(fs.nodes@[idx].children@.map_values(|c: usize| c as int)
                                    =~= st.nodes[idx].children.push(n as int));
                            } else if idx == n as int {
                                assert(fs.nodes@[idx].children@.map_values(|c: usize| c as int)
                                    =~= Seq::<int>::empty());
                            }
                        }
                        assert(fs@ =~= target);
                    }
                },
                Ok(Input::FileEntry { name, size }) => {
                    let ghost gname = name@;
                    let n = fs.nodes.len();
                    fs.nodes.push(
                        FsNode {
                            data: NodeData::File { name, size },
                            parent: Some(cur),
                            children: Vec::new(),
                        },
                    );
                    fs.nodes[cur].children.push(n);
                    proof {
                        let target = add_node(
                            st,
                            SpecNodeData::File { name: gname, size: size as int },
                        ).nodes;
                        assert forall|idx: int| 0 <= idx < fs@.len() implies fs@[idx] == target[idx] by {
                            if idx == cur as int {
                                assert(fs.nodes@[idx].children@.map_values(|c: usize| c as int)
                                    =~= st.nodes[idx].children.push(n as int));
                            } else if idx == n as int {
                                assert(fs.nodes@[idx].children@.map_values(|c: usize| c as int)
                                    =~= Seq::<int>::empty());
                            }
                        }
                        assert(fs@ =~= target);
                    }
                },
                Ok(Input::ChangeDirCmd { target }) => {
                    proof {
                        reveal_strlit("/");
                        reveal_strlit("..");
                        assert("/"@ =~= seq!['/']);
                        assert(".."@ =~= seq!['.', '.']);
                    }
                    if crate::strcmp::str_eq(target.as_str(), "/") {
                        cur = 0;
                    } else if crate::strcmp::str_eq(target.as_str(), "..") {
                        match fs.get_parentfolder(cur) {
                            Some(p) => {
                                cur = p;
                            },
                            None => {
                                return Err(BuildError { kind: NavError::NoParent, line: li });
                            },
                        }
                    } else {
                        match fs.get_subfolder(cur, target.as_str()) {
                            Some(ix) => {
                                cur = ix;
                            },
                            None => {
                                return Err(BuildError { kind: NavError::MissingChild, line: li });
                            },
                        }
                    }
                },
            }
            li = li + 1;
        }
        Ok(fs)
    }
}

/// Child indices always exceed their parent's index and stay in range: the
/// termination measure of every traversal.
pub open spec fn children_ascending(nodes: Seq<SpecNode>) -> bool {
    forall|i: int, k: int|
        0 <= i < nodes.len() && 0 <= k < nodes[i].children.len() ==> i < #[trigger] nodes[i].children[k]
            < nodes.len()
}

/// The total size of the node at `i`: a file's own size, or the sum of the
/// totals of a directory's children.
pub open spec fn spec_size_at(nodes: Seq<SpecNode>, i: int) -> int
    decreases nodes.len() - i, nodes[i].children.len() + 1,
        when 0 <= i < nodes.len() && children_ascending(nodes)
{
    match nodes[i].data {
        SpecNodeData::File { size, .. } => size,
        SpecNodeData::Directory { .. } => spec_sum_from(nodes, i, 0),
    }
}

/// The summed totals of children `k..` of the node at `i`.
pub open spec fn spec_sum_from(nodes: Seq<SpecNode>, i: int, k: int) -> int
    decreases nodes.len() - i, nodes[i].children.len() - k,
        when 0 <= i < nodes.len() && 0 <= k <= nodes[i].children.len() && children_ascending(nodes)
{
    if k == nodes[i].children.len() {
        0
    } else {
        spec_size_at(nodes, nodes[i].children[k]) + spec_sum_from(nodes, i, k + 1)
    }
}

/// The directory totals of the subtree at `i`, in depth-first post-order, so a
/// directory's own total follows its children's.
pub open spec fn spec_dir_sizes_at(nodes: Seq<SpecNode>, i: int) -> Seq<int>
    decreases nodes.len() - i, nodes[i].children.len() + 1,
        when 0 <= i < nodes.len() && children_ascending(nodes)
{
    match nodes[i].data {
        SpecNodeData::File { .. } => Seq::empty(),
        SpecNodeData::Directory { .. } => spec_dir_sizes_from(nodes, i, 0).push(
            spec_size_at(nodes, i),
        ),
    }
}

/// The directory totals emitted for children `k..` of the node at `i`.
pub open spec fn spec_dir_sizes_from(nodes: Seq<SpecNode>, i: int, k: int) -> Seq<int>
    decreases nodes.len() - i, nodes[i].children.len() - k,
        when 0 <= i < nodes.len() && 0 <= k <= nodes[i].children.len() && children_ascending(nodes)
{
    if k == nodes[i].children.len() {
        Seq::empty()
    } else {
        spec_dir_sizes_at(nodes, nodes[i].children[k]) + spec_dir_sizes_from(nodes, i, k + 1)
    }
}

/// The file sizes of the subtree at `i`, in depth-first order.
pub open spec fn spec_file_sizes_at(nodes: Seq<SpecNode>, i: int) -> Seq<int>
    decreases nodes.len() - i, nodes[i].children.len() + 1,
        when 0 <= i < nodes.len() && children_ascending(nodes)
{
    match nodes[i].data {
        SpecNodeData::File { size, .. } => seq![size],
        SpecNodeData::Directory { .. } => spec_file_sizes_from(nodes, i, 0),
    }
}

/// The file sizes of the subtrees of children `k..` of the node at `i`.
pub open spec fn spec_file_sizes_from(nodes: Seq<SpecNode>, i: int, k: int) -> Seq<int>
    decreases nodes.len() - i, nodes[i].children.len() - k,
        when 0 <= i < nodes.len() && 0 <= k <= nodes[i].children.len() && children_ascending(nodes)
{
    if k == nodes[i].children.len() {
        Seq::empty()
    } else {
        spec_file_sizes_at(nodes, nodes[i].children[k]) + spec_file_sizes_from(nodes, i, k + 1)
    }
}

/// The sum of a sequence of integers.
pub open spec fn int_sum(s: Seq<int>) -> int
    decreases s.len(),
{
    if s.len() == 0 {
        0
    } else {
        s[0] + int_sum(s.skip(1))
    }
}

pub proof fn lemma_int_sum_concat(a: Seq<int>, b: Seq<int>)
    ensures
        int_sum(a + b) == int_sum(a) + int_sum(b),
    decreases a.len(),
{
    if a.len() == 0 {
        assert(a + b =~= b);
    } else {
        assert((a + b).skip(1) =~= a.skip(1) + b);
        lemma_int_sum_concat(a.skip(1), b);
    }
}

/// No subtree has a negative total.
pub proof fn lemma_size_nonneg(nodes: Seq<SpecNode>, i: int)
    requires
        nodes_wf(nodes),
        0 <= i < nodes.len(),
    ensures
        spec_size_at(nodes, i) >= 0,
    decreases nodes.len() - i, nodes[i].children.len() + 1,
{
    if nodes[i].data is Directory {
        lemma_sum_nonneg(nodes, i, 0);
    }
}

pub proof fn lemma_sum_nonneg(nodes: Seq<SpecNode>, i: int, k: int)
    requires
        nodes_wf(nodes),
        0 <= i < nodes.len(),
        0 <= k <= nodes[i].children.len(),
    ensures
        spec_sum_from(nodes, i, k) >= 0,
    decreases nodes.len() - i, nodes[i].children.len() - k,
{
    if k < nodes[i].children.len() {
        lemma_size_nonneg(nodes, nodes[i].children[k]);
        lemma_sum_nonneg(nodes, i, k + 1);
    }
}

/// A directory's total is the sum of its children's totals; a file
/// contributes its literal size.
pub proof fn lemma_dir_size_is_children_sum(nodes: Seq<SpecNode>, i: int)
    requires
        nodes_wf(nodes),
        0 <= i < nodes.len(),
        nodes[i].data is Directory,
    ensures
        spec_size_at(nodes, i) == int_sum(
            nodes[i].children.map_values(|c: int| spec_size_at(nodes, c)),
        ),
{
    lemma_sum_is_int_sum(nodes, i, 0);
    assert(nodes[i].children.map_values(|c: int| spec_size_at(nodes, c)).skip(0) =~= nodes[i].children.map_values(
        |c: int| spec_size_at(nodes, c),
    ));
}

proof fn lemma_sum_is_int_sum(nodes: Seq<SpecNode>, i: int, k: int)
    requires
        nodes_wf(nodes),
        0 <= i < nodes.len(),
        0 <= k <= nodes[i].children.len(),
    ensures
        spec_sum_from(nodes, i, k) == int_sum(
            nodes[i].children.map_values(|c: int| spec_size_at(nodes, c)).skip(k),
        ),
    decreases nodes[i].children.len() - k,
{
    let mapped = nodes[i].children.map_values(|c: int| spec_size_at(nodes, c));
    if k == nodes[i].children.len() {
        assert(mapped.skip(k) =~= Seq::<int>::empty());
    } else {
        lemma_sum_is_int_sum(nodes, i, k + 1);
        assert(mapped.skip(k)[0] == spec_size_at(nodes, nodes[i].children[k]));
        assert(mapped.skip(k).skip(1) =~= mapped.skip(k + 1));
    }
}

/// A subtree's total is the sum of the sizes of the files in it; in
/// particular, the root's total aggregates every file of the tree.
pub proof fn lemma_size_is_file_total(nodes: Seq<SpecNode>, i: int)
    requires
        nodes_wf(nodes),
        0 <= i < nodes.len(),
    ensures
        spec_size_at(nodes, i) == int_sum(spec_file_sizes_at(nodes, i)),
    decreases nodes.len() - i, nodes[i].children.len() + 1,
{
    match nodes[i].data {
        SpecNodeData::File { size, .. } => {
            assert(spec_size_at(nodes, i) == size);
            assert(spec_file_sizes_at(nodes, i) == seq![size]);
            assert(seq![size].skip(1) =~= Seq::<int>::empty());
            assert(int_sum(seq![size]) == size + int_sum(Seq::<int>::empty()));
            assert(int_sum(Seq::<int>::empty()) == 0);
        },
        SpecNodeData::Directory { .. } => {
            lemma_sum_is_file_total_from(nodes, i, 0);
            assert(spec_size_at(nodes, i) == spec_sum_from(nodes, i, 0));
            assert(spec_file_sizes_at(nodes, i) == spec_file_sizes_from(nodes, i, 0));
        },
    }
}

proof fn lemma_sum_is_file_total_from(nodes: Seq<SpecNode>, i: int, k: int)
    requires
        nodes_wf(nodes),
        0 <= i < nodes.len(),
        0 <= k <= nodes[i].children.len(),
    ensures
        spec_sum_from(nodes, i, k) == int_sum(spec_file_sizes_from(nodes, i, k)),
    decreases nodes.len() - i, nodes[i].children.len() - k,
{
    if k < nodes[i].children.len() {
        lemma_size_is_file_total(nodes, nodes[i].children[k]);
        lemma_sum_is_file_total_from(nodes, i, k + 1);
        lemma_int_sum_concat(
            spec_file_sizes_at(nodes, nodes[i].children[k]),
            spec_file_sizes_from(nodes, i, k + 1),
        );
    }
}

/// The last directory total emitted for the whole tree is the root's own, and
/// it aggregates the size of every file under the root.
pub proof fn lemma_root_total(nodes: Seq<SpecNode>)
    requires
        nodes_wf(nodes),
    ensures
        spec_dir_sizes_at(nodes, 0).len() >= 1,
        spec_dir_sizes_at(nodes, 0).last() == spec_size_at(nodes, 0),
        spec_size_at(nodes, 0) == int_sum(spec_file_sizes_at(nodes, 0)),
{
    lemma_size_is_file_total(nodes, 0);
}

/// The directory totals of children `0..k` of the node at `i`, in order.
pub open spec fn spec_dirs_prefix(nodes: Seq<SpecNode>, i: int, k: int) -> Seq<int>
    decreases k,
        when 0 <= i < nodes.len() && 0 <= k <= nodes[i].children.len() && children_ascending(nodes)
{
    if k <= 0 {
        Seq::empty()
    } else {
        spec_dirs_prefix(nodes, i, k - 1) + spec_dir_sizes_at(nodes, nodes[i].children[k - 1])
    }
}

proof fn lemma_dirs_prefix_full(nodes: Seq<SpecNode>, i: int, k: int)
    requires
        nodes_wf(nodes),
        0 <= i < nodes.len(),
        0 <= k <= nodes[i].children.len(),
    ensures
        spec_dirs_prefix(nodes, i, k) + spec_dir_sizes_from(nodes, i, k) == spec_dir_sizes_from(
            nodes,
            i,
            0,
        ),
    decreases k,
{
    if k == 0 {
        assert(Seq::<int>::empty() + spec_dir_sizes_from(nodes, i, 0) =~= spec_dir_sizes_from(
            nodes,
            i,
            0,
        ));
    } else {
        lemma_dirs_prefix_full(nodes, i, k - 1);
        assert(spec_dir_sizes_from(nodes, i, k - 1) == spec_dir_sizes_at(
            nodes,
            nodes[i].children[k - 1],
        ) + spec_dir_sizes_from(nodes, i, k));
        assert((spec_dirs_prefix(nodes, i, k - 1) + spec_dir_sizes_at(
            nodes,
            nodes[i].children[k - 1],
        )) + spec_dir_sizes_from(nodes, i, k) =~= spec_dirs_prefix(nodes, i, k - 1) + (
        spec_dir_sizes_at(nodes, nodes[i].children[k - 1]) + spec_dir_sizes_from(nodes, i, k)));
    }
}

impl FileSystem {
    /// The computed total of every directory of the tree, root included, in
    /// depth-first post-order (the root's total comes last).
    pub fn get_dir_sizes(&self) -> (r: Vec<usize>)
        requires
            self.wf(),
            spec_size_at(self@, 0) <= usize::MAX,
        ensures
            r@.map_values(|x: usize| x as int) == spec_dir_sizes_at(self@, 0),
    {
        let mut result = Vec::new();
        self.get_dir_size(&mut result, 0);
        assert(result@.map_values(|x: usize| x as int) =~= Seq::<usize>::empty().map_values(
            |x: usize| x as int,
        ) + spec_dir_sizes_at(self@, 0));
        result
    }

    /// Returns the total size of the subtree at `node_id`, and records into
    /// `result`, post-order, the total of every directory of that subtree.
    pub fn get_dir_size(&self, result: &mut Vec<usize>, node_id: usize) -> (size: usize)
        requires
            self.wf(),
            node_id < self@.len(),
            spec_size_at(self@, node_id as int) <= usize::MAX,
        ensures
            size == spec_size_at(self@, node_id as int),
            final(result)@.map_values(|x: usize| x as int) == old(result)@.map_values(
                |x: usize| x as int,
            ) + spec_dir_sizes_at(self@, node_id as int),
        decreases self@.len() - node_id,
    {
        let ghost i = node_id as int;
        match &self.nodes[node_id].data {
            NodeData::File { size, .. } => {
                assert(final(result)@.map_values(|x: usize| x as int) =~= old(result)@.map_values(
                    |x: usize| x as int,
                ) + spec_dir_sizes_at(self@, i));
                *size
            },
            NodeData::Directory { .. } => {
                let children = &self.nodes[node_id].children;
                let mut dir_size: usize = 0;
                let mut k: usize = 0;
                proof {
                    lemma_sum_nonneg(self@, i, 0);
                }
                while k < children.len()
                    invariant
                        self.wf(),
                        node_id < self@.len(),
                        i == node_id as int,
                        self@[i].data is Directory,
                        children@ == self.nodes@[i].children@,
                        children@.map_values(|c: usize| c as int) == self@[i].children,
                        0 <= k <= children.len(),
                        spec_size_at(self@, i) <= usize::MAX,
                        spec_size_at(self@, i) == spec_sum_from(self@, i, 0),
                        dir_size == spec_sum_from(self@, i, 0) - spec_sum_from(self@, i, k as int),
                        result@.map_values(|x: usize| x as int) == old(result)@.map_values(
                            |x: usize| x as int,
                        ) + spec_dirs_prefix(self@, i, k as int),
                    decreases children.len() - k,
                {
                    let child = children[k];
                    proof {
                        assert(self@[i].children[k as int] == child as int);
                        lemma_sum_nonneg(self@, i, k as int + 1);
                        lemma_size_nonneg(self@, child as int);
                        assert(spec_sum_from(self@, i, k as int) == spec_size_at(
                            self@,
                            child as int,
                        ) + spec_sum_from(self@, i, k as int + 1));
                    }
                    let child_size = self.get_dir_size(result, child);
                    dir_size = dir_size + child_size;
                    proof {
                        assert(spec_dirs_prefix(self@, i, k as int + 1) == spec_dirs_prefix(
                            self@,
                            i,
                            k as int,
                        ) + spec_dir_sizes_at(self@, child as int));
                        assert(result@.map_values(|x: usize| x as int) =~= old(result)@.map_values(
                            |x: usize| x as int,
                        ) + spec_dirs_prefix(self@, i, k as int + 1));
                    }
                    k = k + 1;
                }
                proof {
                    lemma_dirs_prefix_full(self@, i, k as int);
                    assert(spec_dir_sizes_from(self@, i, k as int) =~= Seq::<int>::empty());
                    assert(spec_dirs_prefix(self@, i, k as int) =~= spec_dir_sizes_from(
                        self@,
                        i,
                        0,
                    ));
                    assert(dir_size == spec_size_at(self@, i));
                }
                let ghost pre = result@;
                result.push(dir_size);
                proof {
                    assert(result@ == pre.push(dir_size));
                    assert(result@.map_values(|x: usize| x as int) =~= pre.map_values(
                        |x: usize| x as int,
                    ).push(dir_size as int));
                    assert(spec_dir_sizes_at(self@, i) == spec_dir_sizes_from(self@, i, 0).push(
                        spec_size_at(self@, i),
                    ));
                    assert(result@.map_values(|x: usize| x as int) =~= old(result)@.map_values(
                        |x: usize| x as int,
                    ) + spec_dir_sizes_at(self@, i));
                }
                dir_size
            },
        }
    }
}

/// A `$ cd ..` replayed with the cursor at the root always faults: it is
/// reported, never silently ignored.
pub proof fn lemma_cd_up_at_root_fails(st: BuildState, line: Seq<char>)
    requires
        state_wf(st),
        st.cursor == 0,
        spec_parse(line) matches Some(SpecInput::Cd { target }) && target == seq!['.', '.'],
    ensures
        spec_step(st, line) == Err::<BuildState, NavError>(NavError::NoParent),
{
    assert(seq!['.', '.'] != seq!['/']) by {
        assert(seq!['.', '.'].len() == 2);
    }
}

} // verus!
