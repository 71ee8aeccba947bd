//! The windows of each workspace, from a layout tree (the tree/event-subscribe
//! protocol).
use vstd::prelude::*;
use crate::window::{copy_field, Window};
use crate::workspace::{entries_map, merge, names_unique, put};

verus! {

/// The kind of a node in a layout tree.
#[derive(Debug, Clone, Copy, PartialEq, Eq, Structural)]
pub enum NodeType {
    Root,
    Output,
    Workspace,
    Con,
    FloatingCon,
    Dockarea,
}

/// A node of a layout tree, holding what extraction reads.
#[derive(Debug)]
pub struct Node {
    pub node_type: NodeType,
    pub name: Option<String>,
    pub app_id: Option<String>,
    /// The X11 window class, when the node has window properties.
    pub window_class: Option<String>,
    pub nodes: Vec<Node>,
    pub floating_nodes: Vec<Node>,
}

/// Why a tree could not be read.
#[derive(Debug, Clone, Copy, PartialEq, Eq, Structural)]
pub enum TreeError {
    /// A workspace node has no name.
    UnnamedWorkspace,
}

/// The name of the scratchpad workspace, which cannot be renamed.
pub open spec fn scratchpad() -> Seq<char> {
    "__i3_scratch"@
}

/// A workspace node other than the scratchpad.
pub open spec fn is_workspace_node(n: Node) -> bool {
    n.node_type == NodeType::Workspace && !(n.name matches Some(s) && s@ == scratchpad())
}

/// A container node, tiled or floating.
pub open spec fn is_window_node(n: Node) -> bool {
    n.node_type == NodeType::Con || n.node_type == NodeType::FloatingCon
}

/// `field` holds a non-empty text.
pub open spec fn has_text(field: Option<String>) -> bool {
    field matches Some(s) && s@.len() > 0
}

/// The window that a node stands for: a container with at least one
/// non-empty identity field.
pub open spec fn window_of_node(n: Node) -> Option<Window> {
    if is_window_node(n) && (has_text(n.name) || has_text(n.app_id) || has_text(n.window_class)) {
        Some(Window { name: n.name, app_id: n.app_id, window_properties_class: n.window_class })
    } else {
        None
    }
}

/// Child `k` of `n`: tiled children first, then floating ones.
pub open spec fn child(n: Node, k: int) -> Node {
    if k < n.nodes.len() {
        n.nodes[k]
    } else {
        n.floating_nodes[k - n.nodes.len()]
    }
}

/// How many children `n` has, tiled and floating.
pub open spec fn child_count(n: Node) -> int {
    n.nodes.len() + n.floating_nodes.len()
}

/// The windows below `n`, depth first: for each child in turn, the windows
/// below it, then the child itself when it is a window.
pub open spec fn node_windows(n: Node) -> Seq<Window>
    decreases n, child_count(n) + 1,
{
    windows_upto(n, child_count(n))
}

/// What the first `i` children of `n` give to `node_windows(n)`.
pub open spec fn windows_upto(n: Node, i: int) -> Seq<Window>
    decreases n, i,
{
    if i <= 0 || i > child_count(n) {
        Seq::empty()
    } else {
        let c = child(n, i - 1);
        let below = windows_upto(n, i - 1) + node_windows(c);
        match window_of_node(c) {
            Some(w) => below.push(w),
            None => below,
        }
    }
}

/// The workspaces below `n` and their windows; `None` when some workspace
/// below it has no name. A later workspace replaces an earlier one of the
/// same name.
pub open spec fn node_workspaces(n: Node) -> Option<Map<Seq<char>, Seq<Window>>>
    decreases n, n.nodes.len() + 1,
{
    workspaces_upto(n, n.nodes.len() as int)
}

/// What the first `i` tiled children of `n` give to `node_workspaces(n)`.
pub open spec fn workspaces_upto(n: Node, i: int) -> Option<Map<Seq<char>, Seq<Window>>>
    decreases n, i,
{
    if i <= 0 || i > n.nodes.len() {
        Some(Map::empty())
    } else {
        match workspaces_upto(n, i - 1) {
            None => None,
            Some(m) => {
                let c = n.nodes[i - 1];
                if is_workspace_node(c) {
                    match c.name {
                        Some(name) => Some(m.insert(name@, node_windows(c))),
                        None => None,
                    }
                } else {
                    match node_workspaces(c) {
                        Some(below) => Some(m.union_prefer_right(below)),
                        None => None,
                    }
                }
            },
        }
    }
}

fn field_has_text(field: &Option<String>) -> (r: bool)
    ensures
        r == has_text(*field),
{
    match field {
        Some(s) => !s.as_str().is_empty(),
        None => false,
    }
}

impl Window {
    /// The window that `node` stands for, if it is a container with some
    /// non-empty identity field.
    pub fn from_node(node: &Node) -> (r: Option<Window>)
        ensures
            r == window_of_node(*node),
    {
        if node.is_window() {
            let name = copy_field(&node.name);
            let app_id = copy_field(&node.app_id);
            let window_properties_class = copy_field(&node.window_class);
            if field_has_text(&name) || field_has_text(&app_id) || field_has_text(
                &window_properties_class,
            ) {
                Some(Window { name, app_id, window_properties_class })
            } else {
                None
            }
        } else {
            None
        }
    }
}

impl Node {
    /// A workspace other than the scratchpad.
    pub fn is_workspace(&self) -> (r: bool)
        ensures
            r == is_workspace_node(*self),
    {
        let scratch = String::from_str("__i3_scratch");
        let is_scratch = match &self.name {
            Some(s) => *s == scratch,
            None => false,
        };
        !is_scratch && self.node_type == NodeType::Workspace
    }

    /// A container, tiled or floating.
    pub fn is_window(&self) -> (r: bool)
        ensures
            r == is_window_node(*self),
    {
        self.node_type == NodeType::Con || self.node_type == NodeType::FloatingCon
    }

    /// Adds what child `c` gives to the windows below its parent.
    fn add_child_windows(c: &Node, res: &mut Vec<Window>)
        ensures
            final(res)@ == match window_of_node(*c) {
                Some(w) => (old(res)@ + node_windows(*c)).push(w),
                None => old(res)@ + node_windows(*c),
            },
        decreases c, 1nat,
    {
        let below = c.windows_in_node();
        let mut k: usize = 0;
        let ghost start = res@;
        while k < below.len()
            invariant
                k <= below.len(),
                res@ == start + below@.subrange(0, k as int),
            decreases below.len() - k,
        {
            res.push(below[k].copied());
            k += 1;
        }
        proof {
            assert(below@.subrange(0, below.len() as int) =~= below@);
        }
        if let Some(w) = Window::from_node(c) {
            res.push(w);
        }
    }

    /// The windows below this node, depth first, tiled children before
    /// floating ones.
    pub fn windows_in_node(&self) -> (r: Vec<Window>)
        ensures
            r@ == node_windows(*self),
        decreases self, 0nat,
    {
        let mut res: Vec<Window> = Vec::new();
        let mut i: usize = 0;
        while i < self.nodes.len()
            invariant
                i <= self.nodes.len(),
                res@ == windows_upto(*self, i as int),
            decreases self.nodes.len() - i,
        {
            proof {
                assert(child(*self, i as int) == self.nodes[i as int]);
            }
            Self::add_child_windows(&self.nodes[i], &mut res);
            i += 1;
        }
        let mut j: usize = 0;
        while j < self.floating_nodes.len()
            invariant
                j <= self.floating_nodes.len(),
                i == self.nodes.len(),
                res@ == windows_upto(*self, i + j),
            decreases self.floating_nodes.len() - j,
        {
            proof {
                assert(child(*self, i + j) == self.floating_nodes[j as int]);
            }
            Self::add_child_windows(&self.floating_nodes[j], &mut res);
            j += 1;
        }
        res
    }

    /// The workspaces below this node with their windows, one entry per
    /// name. Fails when some workspace has no name.
    pub fn workspaces_in_node(&self) -> (r: Result<Vec<(String, Vec<Window>)>, TreeError>)
        ensures
            match r {
                Ok(ws) => names_unique(ws@) && node_workspaces(*self) == Some(entries_map(ws@)),
                Err(_) => node_workspaces(*self) is None,
            },
        decreases self,
    {
        let mut res: Vec<(String, Vec<Window>)> = Vec::new();
        proof {
            assert(entries_map(res@) =~= Map::empty());
        }
        let mut i: usize = 0;
        while i < self.nodes.len()
            invariant
                i <= self.nodes.len(),
                names_unique(res@),
                workspaces_upto(*self, i as int) == Some(entries_map(res@)),
            decreases self.nodes.len() - i,
        {
            let node = &self.nodes[i];
            if node.is_workspace() {
                match &node.name {
                    Some(name) => {
                        let windows = node.windows_in_node();
                        put(&mut res, name.clone(), windows);
                    },
                    None => {
                        proof {
                            lemma_upto_fails(*self, i as int + 1, self.nodes.len() as int);
                        }
                        return Err(TreeError::UnnamedWorkspace);
                    },
                }
            } else {
                match node.workspaces_in_node() {
                    Ok(below) => {
                        merge(&mut res, &below);
                    },
                    Err(e) => {
                        proof {
                            lemma_upto_fails(*self, i as int + 1, self.nodes.len() as int);
                        }
                        return Err(e);
                    },
                }
            }
            i += 1;
        }
        Ok(res)
    }
}

/// The scratchpad workspace never appears among the extracted workspaces,
/// whatever the tree holds.
pub proof fn lemma_scratchpad_never_listed(n: Node)
    ensures
        node_workspaces(n) matches Some(m) ==> !m.dom().contains(scratchpad()),
    decreases n, n.nodes.len() + 1,
{
    lemma_scratchpad_not_upto(n, n.nodes.len() as int);
}

proof fn lemma_scratchpad_not_upto(n: Node, i: int)
    ensures
        workspaces_upto(n, i) matches Some(m) ==> !m.dom().contains(scratchpad()),
    decreases n, i,
{
    if 0 < i <= n.nodes.len() {
        lemma_scratchpad_not_upto(n, i - 1);
        let c = n.nodes[i - 1];
        if !is_workspace_node(c) {
            lemma_scratchpad_never_listed(c);
        }
    }
}

/// Once a prefix of the children fails, every longer prefix fails.
proof fn lemma_upto_fails(n: Node, i: int, j: int)
    requires
        0 < i <= j <= n.nodes.len(),
        workspaces_upto(n, i) is None,
    ensures
        workspaces_upto(n, j) is None,
    decreases j - i,
{
    if i < j {
        lemma_upto_fails(n, i, j - 1);
    }
}

} // verus!
