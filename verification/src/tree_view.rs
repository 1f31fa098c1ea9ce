//! A tree view over sandbox values: nodes, the flattened list of visible rows,
//! and the selection, scrolling and folding state.
//!
//! The state names the folded nodes by their identifiers and keeps a selected
//! row and a scroll offset into the flattened list of visible rows. A node
//! stands for a heap value; an object's children are its attributes and a
//! list's children are its elements.
use vstd::prelude::*;
use vstd::string::StringExecFns;
use crate::text::{decimal, decimal_text};
use crate::mem::{CellView, MemoryAllocation, Value, ValueView, points_live, value_children};

verus! {

/// State of a tree view: folded node identifiers, selected row, scroll offset.
#[derive(Debug, Clone)]
pub struct TreeViewState {
    /// Identifiers of the collapsed nodes (a set: order and repeats carry no meaning).
    pub collapsed: Vec<String>,
    /// Currently selected index in the flattened visible list.
    pub selected_index: usize,
    /// Scroll offset.
    pub scroll: u16,
}

/// The identifiers that a list of names holds.
pub open spec fn names_set(v: Seq<String>) -> Set<Seq<char>> {
    Set::new(|k: Seq<char>| exists|i: int| 0 <= i < v.len() && v[i]@ == k)
}

/// The folded set after toggling `k`.
pub open spec fn toggled(s: Set<Seq<char>>, k: Seq<char>) -> Set<Seq<char>> {
    if s.contains(k) {
        s.remove(k)
    } else {
        s.insert(k)
    }
}

/// The selection after moving one row up.
pub open spec fn prev_index(i: usize) -> usize {
    if i == 0 {
        0
    } else {
        (i - 1) as usize
    }
}

/// The selection after moving one row down among `total` rows.
pub open spec fn next_index(i: usize, total: usize) -> usize {
    if i + 1 < total {
        (i + 1) as usize
    } else {
        i
    }
}

/// The scroll offset that brings row `i` into a viewport of `height` rows.
pub open spec fn visible_scroll(i: usize, scroll: u16, height: usize) -> u16 {
    if i < scroll {
        i as u16
    } else if i >= scroll + height {
        (i - height + 1) as u16
    } else {
        scroll
    }
}

impl TreeViewState {
    /// The identifiers of the collapsed nodes.
    pub open spec fn folded(&self) -> Set<Seq<char>> {
        names_set(self.collapsed@)
    }

    /// A state with nothing collapsed, the first row selected and no scroll.
    pub fn new() -> (r: Self)
        ensures
            r.folded() == Set::<Seq<char>>::empty(),
            r.selected_index == 0,
            r.scroll == 0,
    {
        let r = TreeViewState { collapsed: Vec::new(), selected_index: 0, scroll: 0 };
        assert(r.folded() =~= Set::<Seq<char>>::empty());
        r
    }

    /// Position of `id` among the collapsed identifiers.
    fn find(&self, id: &String) -> (r: Option<usize>)
        ensures
            match r {
                Some(i) => i < self.collapsed@.len() && self.collapsed@[i as int]@ == id@,
                None => !self.folded().contains(id@),
            },
    {
        let mut i: usize = 0;
        while i < self.collapsed.len()
            invariant
                i <= self.collapsed@.len(),
                forall|j: int| 0 <= j < i ==> self.collapsed@[j]@ != id@,
            decreases self.collapsed@.len() - i,
        {
            if self.collapsed[i] == *id {
                return Some(i);
            }
            i = i + 1;
        }
        None
    }

    /// Whether the node `id` is collapsed.
    pub fn is_collapsed(&self, id: &str) -> (r: bool)
        ensures
            r == self.folded().contains(id@),
    {
        let key = id.to_owned();
        match self.find(&key) {
            Some(_) => true,
            None => false,
        }
    }

    /// Collapses the node `id`.
    pub fn collapse(&mut self, id: &str)
        ensures
            final(self).folded() == old(self).folded().insert(id@),
            final(self).selected_index == old(self).selected_index,
            final(self).scroll == old(self).scroll,
    {
        let key = id.to_owned();
        if self.find(&key).is_none() {
            let ghost before = self.collapsed@;
            self.collapsed.push(key);
            proof {
                assert forall|k: Seq<char>| #[trigger] self.folded().contains(k) == old(self).folded().insert(id@).contains(k) by {
                    if k != id@ && self.folded().contains(k) {
                        let i = choose|i: int| 0 <= i < self.collapsed@.len() && self.collapsed@[i]@ == k;
                        assert(i < before.len());
                        assert(before[i]@ == k);
                    }
                    if k != id@ && old(self).folded().contains(k) {
                        let i = choose|i: int| 0 <= i < before.len() && before[i]@ == k;
                        assert(self.collapsed@[i]@ == k);
                    }
                    if k == id@ {
                        assert(self.collapsed@[before.len() as int]@ == k);
                    }
                }
                assert(self.folded() =~= old(self).folded().insert(id@));
            }
        } else {
            assert(old(self).folded().insert(id@) =~= old(self).folded());
        }
    }

    /// Expands the node `id`.
    pub fn expand(&mut self, id: &str)
        ensures
            final(self).folded() == old(self).folded().remove(id@),
            final(self).selected_index == old(self).selected_index,
            final(self).scroll == old(self).scroll,
    {
        let key = id.to_owned();
        let mut kept: Vec<String> = Vec::new();
        let mut i: usize = 0;
        while i < self.collapsed.len()
            invariant
                i <= self.collapsed@.len(),
                key@ == id@,
                forall|k: Seq<char>| #[trigger] names_set(kept@).contains(k) <==>
                    (k != id@ && exists|j: int| 0 <= j < i && self.collapsed@[j]@ == k),
            decreases self.collapsed@.len() - i,
        {
            let ghost before = kept@;
            if self.collapsed[i] != key {
                kept.push(self.collapsed[i].clone());
            }
            proof {
                assert forall|k: Seq<char>| #[trigger] names_set(kept@).contains(k) <==>
                    (k != id@ && exists|j: int| 0 <= j < i + 1 && self.collapsed@[j]@ == k) by {
                    if names_set(kept@).contains(k) {
                        let m = choose|m: int| 0 <= m < kept@.len() && kept@[m]@ == k;
                        if m < before.len() {
                            assert(names_set(before).contains(k));
                        } else {
                            assert(self.collapsed@[i as int]@ == k);
                        }
                    }
                    if k != id@ && exists|j: int| 0 <= j < i + 1 && self.collapsed@[j]@ == k {
                        let j = choose|j: int| 0 <= j < i + 1 && self.collapsed@[j]@ == k;
                        if j < i {
                            assert(names_set(before).contains(k));
                            let m = choose|m: int| 0 <= m < before.len() && before[m]@ == k;
                            assert(kept@[m]@ == k);
                        } else {
                            assert(kept@[before.len() as int]@ == k);
                        }
                    }
                }
            }
            i = i + 1;
        }
        self.collapsed = kept;
        assert(self.folded() =~= old(self).folded().remove(id@));
    }

    /// Collapses `id` if it is expanded and expands it if it is collapsed.
    pub fn toggle_collapsed(&mut self, id: &str)
        ensures
            final(self).folded() == toggled(old(self).folded(), id@),
            final(self).selected_index == old(self).selected_index,
            final(self).scroll == old(self).scroll,
    {
        if self.is_collapsed(id) {
            self.expand(id);
        } else {
            self.collapse(id);
        }
    }

    /// Moves the selection one row up, stopping at the first row.
    pub fn select_prev(&mut self)
        ensures
            final(self).selected_index == prev_index(old(self).selected_index),
            final(self).folded() == old(self).folded(),
            final(self).scroll == old(self).scroll,
    {
        if self.selected_index > 0 {
            self.selected_index = self.selected_index - 1;
        }
    }

    /// Moves the selection one row down, staying below `total_visible`.
    pub fn select_next(&mut self, total_visible: usize)
        ensures
            final(self).selected_index == next_index(old(self).selected_index, total_visible),
            final(self).folded() == old(self).folded(),
            final(self).scroll == old(self).scroll,
    {
        if self.selected_index < total_visible && total_visible - self.selected_index > 1 {
            self.selected_index = self.selected_index + 1;
        }
    }

    /// Scrolls just enough that the selected row lies in a viewport of
    /// `viewport_height` rows.
    pub fn ensure_visible(&mut self, viewport_height: usize)
        requires
            old(self).scroll + viewport_height <= usize::MAX,
            old(self).selected_index - viewport_height + 1 <= usize::MAX,
        ensures
            final(self).scroll == visible_scroll(old(self).selected_index, old(self).scroll, viewport_height),
            final(self).selected_index == old(self).selected_index,
            final(self).folded() == old(self).folded(),
            viewport_height > 0 && old(self).selected_index <= u16::MAX ==>
                final(self).scroll <= final(self).selected_index < final(self).scroll + viewport_height,
    {
        let scroll = self.scroll as usize;
        if self.selected_index < scroll {
            self.scroll = #[verifier::truncate] (self.selected_index as u16);
        } else if self.selected_index >= scroll + viewport_height {
            self.scroll = #[verifier::truncate] ((self.selected_index - viewport_height + 1) as u16);
        }
    }
}

/// A node of the tree: an identifier (its path), a label and the value it shows.
#[derive(Debug, Clone)]
pub struct TreeNode {
    /// Unique identifier for this node.
    pub id: String,
    pub name: String,
    /// The heap value this node shows.
    pub data: usize,
}

/// What a node holds.
pub ghost struct NodeView {
    pub id: Seq<char>,
    pub name: Seq<char>,
    pub data: usize,
}

impl View for TreeNode {
    type V = NodeView;

    open spec fn view(&self) -> NodeView {
        NodeView { id: self.id@, name: self.name@, data: self.data }
    }
}

/// The children of a node showing value `v`: an object's attributes in order,
/// named by their keys, or a list's elements, named `[i]`; each child's
/// identifier is the parent's, a `.` and the key or position.
pub open spec fn children_of(v: ValueView, n: NodeView) -> Seq<NodeView> {
    match v {
        ValueView::Object(es) => Seq::new(es.len(), |i: int| NodeView {
            id: n.id + "."@ + es[i].0,
            name: es[i].0,
            data: es[i].1,
        }),
        ValueView::Collection(items) => Seq::new(items.len(), |i: int| NodeView {
            id: n.id + "."@ + decimal(i as nat),
            name: "["@ + decimal(i as nat) + "]"@,
            data: items[i],
        }),
        _ => Seq::empty(),
    }
}

impl TreeNode {
    /// A node with the given identifier, label and value.
    pub fn new(id: String, name: String, data: usize) -> (r: Self)
        ensures
            r@ == (NodeView { id: id@, name: name@, data }),
    {
        TreeNode { id, name, data }
    }

    /// Whether the node's value has children: a non-empty object or list.
    pub fn has_children(&self, mem: &MemoryAllocation) -> (r: bool)
        requires
            mem.live(self.data),
        ensures
            r == (children_of(mem.value_at(self.data), self@).len() > 0),
    {
        match mem.get(self.data) {
            Value::Object(m) => m.entries.len() > 0,
            Value::Collection(items) => items.len() > 0,
            _ => false,
        }
    }

    /// The children of the node.
    pub fn get_children(&self, mem: &MemoryAllocation) -> (r: Vec<TreeNode>)
        requires
            mem.live(self.data),
        ensures
            r@.map_values(|c: TreeNode| c@) == children_of(mem.value_at(self.data), self@),
    {
        let mut r: Vec<TreeNode> = Vec::new();
        proof {
            reveal_strlit(".");
            reveal_strlit("[");
            reveal_strlit("]");
        }
        let pre_id = self.id.clone().concat(".");
        match mem.get(self.data) {
            Value::Object(m) => {
                let ghost want = children_of(mem.value_at(self.data), self@);
                let mut i: usize = 0;
                while i < m.entries.len()
                    invariant
                        i <= m.entries@.len(),
                        pre_id@ == self.id@ + "."@,
                        want == children_of(mem.value_at(self.data), self@),
                        mem.value_at(self.data) == ValueView::Object(crate::mapping::entries_view(m.entries@)),
                        r@.map_values(|c: TreeNode| c@) == want.subrange(0, i as int),
                    decreases m.entries@.len() - i,
                {
                    let key = m.entries[i].0.clone();
                    let id = pre_id.clone().concat(key.as_str());
                    let node = TreeNode { id, name: key, data: m.entries[i].1 };
                    assert(crate::mapping::entries_view(m.entries@)[i as int] == (m.entries@[i as int].0@, m.entries@[i as int].1));
                    assert(node@ == want[i as int]);
                    let ghost before = r@;
                    r.push(node);
                    assert(r@.map_values(|c: TreeNode| c@) =~= before.map_values(|c: TreeNode| c@).push(node@));
                    i = i + 1;
                    assert(r@.map_values(|c: TreeNode| c@) =~= want.subrange(0, i as int));
                }
                assert(want.subrange(0, i as int) =~= want);
            },
            Value::Collection(items) => {
                let ghost want = children_of(mem.value_at(self.data), self@);
                let mut i: usize = 0;
                while i < items.len()
                    invariant
                        i <= items@.len(),
                        pre_id@ == self.id@ + "."@,
                        want == children_of(mem.value_at(self.data), self@),
                        mem.value_at(self.data) == ValueView::Collection(items@),
                        r@.map_values(|c: TreeNode| c@) == want.subrange(0, i as int),
                    decreases items@.len() - i,
                {
                    let digits = decimal_text(i);
                    let id = pre_id.clone().concat(digits.as_str());
                    let name = String::from_str("[").concat(digits.as_str()).concat("]");
                    let node = TreeNode { id, name, data: items[i] };
                    assert(node@ == want[i as int]);
                    let ghost before = r@;
                    r.push(node);
                    assert(r@.map_values(|c: TreeNode| c@) =~= before.map_values(|c: TreeNode| c@).push(node@));
                    i = i + 1;
                    assert(r@.map_values(|c: TreeNode| c@) =~= want.subrange(0, i as int));
                }
                assert(want.subrange(0, i as int) =~= want);
            },
            _ => {
                assert(r@.map_values(|c: TreeNode| c@) =~= children_of(mem.value_at(self.data), self@));
            },
        }
        r
    }
}

impl TreeNode {
    /// A copy of the node.
    pub fn duplicate(&self) -> (r: Self)
        ensures
            r@ == self@,
    {
        TreeNode { id: self.id.clone(), name: self.name.clone(), data: self.data }
    }
}

/// A row of the flattened tree.
#[derive(Debug, Clone)]
pub struct FlatNode {
    pub node: TreeNode,
    /// Depth in the tree (0 = root).
    pub depth: usize,
    /// Whether this is the last sibling at its level.
    pub is_last: bool,
    /// `is_last` of each ancestor, from the root down.
    pub parent_is_last: Vec<bool>,
}

/// What a row holds.
pub ghost struct FlatView {
    pub node: NodeView,
    pub depth: usize,
    pub is_last: bool,
    pub parent_is_last: Seq<bool>,
}

impl View for FlatNode {
    type V = FlatView;

    open spec fn view(&self) -> FlatView {
        FlatView { node: self.node@, depth: self.depth, is_last: self.is_last, parent_is_last: self.parent_is_last@ }
    }
}

/// The nodes' views.
pub open spec fn node_views(v: Seq<TreeNode>) -> Seq<NodeView> {
    v.map_values(|n: TreeNode| n@)
}

/// The rows' views.
pub open spec fn row_views(v: Seq<FlatNode>) -> Seq<FlatView> {
    v.map_values(|r: FlatNode| r@)
}

/// The rows of `nodes[k..]`, at `depth` below ancestors whose `is_last` flags
/// are `parent`: each node, followed by the rows of its children when it has
/// some and is not folded. `None` when the expansion goes deeper than `fuel`
/// levels or than `usize` can count.
pub open spec fn rows_from(
    cells: Seq<CellView>,
    folded: Set<Seq<char>>,
    nodes: Seq<NodeView>,
    k: int,
    depth: int,
    parent: Seq<bool>,
    fuel: nat,
) -> Option<Seq<FlatView>>
    decreases fuel, nodes.len() - k,
{
    if k < 0 || k >= nodes.len() {
        Some(Seq::empty())
    } else {
        let n = nodes[k];
        let is_last = k == nodes.len() - 1;
        let row = FlatView { node: n, depth: depth as usize, is_last, parent_is_last: parent };
        let kids = children_of(cells[n.data as int].value, n);
        let below = if kids.len() > 0 && !folded.contains(n.id) {
            if fuel == 0 || depth + 1 > usize::MAX {
                None
            } else {
                rows_from(cells, folded, kids, 0, depth + 1, parent.push(is_last), (fuel - 1) as nat)
            }
        } else {
            Some(Seq::empty())
        };
        match below {
            None => None,
            Some(b) => match rows_from(cells, folded, nodes, k + 1, depth, parent, fuel) {
                None => None,
                Some(rest) => Some(seq![row] + b + rest),
            },
        }
    }
}

/// The expansion of `nodes` ends: the folded nodes cut every endless path.
pub open spec fn expansion_ends(cells: Seq<CellView>, folded: Set<Seq<char>>, nodes: Seq<NodeView>) -> bool {
    exists|fuel: nat| #[trigger] rows_from(cells, folded, nodes, 0, 0, Seq::empty(), fuel) is Some
}

/// The visible rows of the tree with roots `nodes`.
pub open spec fn visible_rows(cells: Seq<CellView>, folded: Set<Seq<char>>, nodes: Seq<NodeView>) -> Seq<FlatView> {
    rows_from(cells, folded, nodes, 0, 0, Seq::empty(), choose|fuel: nat| #[trigger] rows_from(cells, folded, nodes, 0, 0, Seq::empty(), fuel) is Some)->0
}

/// Every node shows a live value.
pub open spec fn nodes_live(mem: &MemoryAllocation, nodes: Seq<NodeView>) -> bool {
    forall|i: int| 0 <= i < nodes.len() ==> mem.live(#[trigger] nodes[i].data)
}

proof fn lemma_children_live(mem: &MemoryAllocation, n: NodeView)
    requires
        mem.wf(),
        mem.live(n.data),
    ensures
        nodes_live(mem, children_of(mem.value_at(n.data), n)),
{
    let v = mem.value_at(n.data);
    let kids = children_of(v, n);
    assert forall|i: int| 0 <= i < kids.len() implies mem.live(#[trigger] kids[i].data) by {
        match v {
            ValueView::Object(es) => {
                assert(value_children(v)[i] == es[i].1);
                assert(points_live(mem@, value_children(v)[i]));
            },
            ValueView::Collection(items) => {
                assert(value_children(v)[i] == items[i]);
                assert(points_live(mem@, value_children(v)[i]));
            },
            _ => {},
        }
    }
}

impl TreeViewState {
    /// Appends the rows of `nodes` at `depth` below ancestors `parent_is_last` to `result`.
    fn flatten_nodes(
        &self,
        mem: &MemoryAllocation,
        nodes: &Vec<TreeNode>,
        depth: usize,
        result: &mut Vec<FlatNode>,
        parent_is_last: &Vec<bool>,
        Ghost(fuel): Ghost<nat>,
    )
        requires
            mem.wf(),
            nodes_live(mem, node_views(nodes@)),
            rows_from(mem@, self.folded(), node_views(nodes@), 0, depth as int, parent_is_last@, fuel) is Some,
        ensures
            row_views(final(result)@) == row_views(old(result)@)
                + rows_from(mem@, self.folded(), node_views(nodes@), 0, depth as int, parent_is_last@, fuel)->0,
        decreases fuel,
    {
        let ghost nv = node_views(nodes@);
        let ghost start = row_views(result@);
        let count = nodes.len();
        let mut k: usize = 0;
        while k < count
            invariant
                mem.wf(),
                count == nodes@.len(),
                nv == node_views(nodes@),
                nodes_live(mem, nv),
                k <= count,
                rows_from(mem@, self.folded(), nv, k as int, depth as int, parent_is_last@, fuel) is Some,
                rows_from(mem@, self.folded(), nv, 0, depth as int, parent_is_last@, fuel) is Some,
                row_views(result@) + rows_from(mem@, self.folded(), nv, k as int, depth as int, parent_is_last@, fuel)->0
                    == start + rows_from(mem@, self.folded(), nv, 0, depth as int, parent_is_last@, fuel)->0,
            decreases count - k,
        {
            let node = &nodes[k];
            let is_last = k == count - 1;
            assert(nv[k as int] == node@);
            assert(mem.live(nv[k as int].data));
            let ghost rest = rows_from(mem@, self.folded(), nv, k as int + 1, depth as int, parent_is_last@, fuel);
            let ghost kids_v = children_of(mem@[node.data as int].value, node@);
            let row = FlatNode { node: node.duplicate(), depth, is_last, parent_is_last: copy_flags(parent_is_last) };
            let ghost before = result@;
            result.push(row);
            assert(row_views(result@) =~= row_views(before).push(row@));
            let expand = node.has_children(mem) && !self.is_collapsed(node.id.as_str());
            if expand {
                let mut below_parent = copy_flags(parent_is_last);
                below_parent.push(is_last);
                let kids = node.get_children(mem);
                proof {
                    lemma_children_live(mem, node@);
                    assert(node_views(kids@) == kids_v);
                }
                let ghost mid = row_views(result@);
                self.flatten_nodes(mem, &kids, depth + 1, result, &below_parent, Ghost((fuel - 1) as nat));
                proof {
                    let b = rows_from(mem@, self.folded(), kids_v, 0, depth as int + 1, below_parent@, (fuel - 1) as nat)->0;
                    assert(row_views(result@) == mid + b);
                    assert(seq![row@] + b + rest->0 =~= seq![row@] + (b + rest->0));
                    assert(row_views(before).push(row@) + b + rest->0 =~= row_views(before) + (seq![row@] + b + rest->0));
                }
            } else {
                proof {
                    assert(seq![row@] + Seq::<FlatView>::empty() + rest->0 =~= seq![row@] + rest->0);
                    assert(row_views(before).push(row@) + rest->0 =~= row_views(before) + (seq![row@] + rest->0));
                }
            }
            k = k + 1;
        }
        proof {
            assert(rows_from(mem@, self.folded(), nv, count as int, depth as int, parent_is_last@, fuel)->0 =~= Seq::<FlatView>::empty());
            assert(row_views(result@) + Seq::<FlatView>::empty() =~= row_views(result@));
        }
    }

    /// The visible rows of the tree with roots `nodes`: every node, followed by
    /// the rows of its children when it has some and is not collapsed.
    pub fn flatten_visible(&self, nodes: &Vec<TreeNode>, mem: &MemoryAllocation) -> (r: Vec<FlatNode>)
        requires
            mem.wf(),
            nodes_live(mem, node_views(nodes@)),
            expansion_ends(mem@, self.folded(), node_views(nodes@)),
        ensures
            row_views(r@) == visible_rows(mem@, self.folded(), node_views(nodes@)),
    {
        let ghost fuel = choose|fuel: nat| #[trigger] rows_from(mem@, self.folded(), node_views(nodes@), 0, 0, Seq::empty(), fuel) is Some;
        let mut result: Vec<FlatNode> = Vec::new();
        let none: Vec<bool> = Vec::new();
        assert(none@ =~= Seq::<bool>::empty());
        self.flatten_nodes(mem, nodes, 0, &mut result, &none, Ghost(fuel));
        assert(row_views(Seq::<FlatNode>::empty()) =~= Seq::<FlatView>::empty());
        assert(Seq::<FlatView>::empty() + rows_from(mem@, self.folded(), node_views(nodes@), 0, 0, Seq::empty(), fuel)->0
            =~= rows_from(mem@, self.folded(), node_views(nodes@), 0, 0, Seq::empty(), fuel)->0);
        result
    }

    /// The number of visible rows.
    pub fn visible_count(&self, nodes: &Vec<TreeNode>, mem: &MemoryAllocation) -> (r: usize)
        requires
            mem.wf(),
            nodes_live(mem, node_views(nodes@)),
            expansion_ends(mem@, self.folded(), node_views(nodes@)),
        ensures
            r == visible_rows(mem@, self.folded(), node_views(nodes@)).len(),
    {
        self.flatten_visible(nodes, mem).len()
    }
}

/// A copy of a list of flags.
fn copy_flags(v: &Vec<bool>) -> (r: Vec<bool>)
    ensures
        r@ == v@,
{
    let mut r: Vec<bool> = Vec::new();
    let mut i: usize = 0;
    while i < v.len()
        invariant
            i <= v@.len(),
            r@ == v@.subrange(0, i as int),
        decreases v@.len() - i,
    {
        r.push(v[i]);
        i = i + 1;
        assert(r@ =~= v@.subrange(0, i as int));
    }
    assert(v@.subrange(0, i as int) =~= v@);
    r
}

/// The identifier of the selected row, if the selection is on a row.
pub fn get_selected_id(nodes: Vec<TreeNode>, state: &TreeViewState, mem: &MemoryAllocation) -> (r: Option<String>)
    requires
        mem.wf(),
        nodes_live(mem, node_views(nodes@)),
        expansion_ends(mem@, state.folded(), node_views(nodes@)),
    ensures
        ({
            let rows = visible_rows(mem@, state.folded(), node_views(nodes@));
            match r {
                Some(id) => state.selected_index < rows.len() && id@ == rows[state.selected_index as int].node.id,
                None => state.selected_index >= rows.len(),
            }
        }),
{
    let visible = state.flatten_visible(&nodes, mem);
    if state.selected_index < visible.len() {
        let ghost rows = row_views(visible@);
        assert(rows[state.selected_index as int] == visible@[state.selected_index as int]@);
        Some(visible[state.selected_index].node.id.clone())
    } else {
        None
    }
}

/// Folding a node twice leaves the folded set as it was.
pub proof fn lemma_toggle_twice(s: Set<Seq<char>>, k: Seq<char>)
    ensures
        toggled(toggled(s, k), k) == s,
{
    if s.contains(k) {
        assert(s.remove(k).insert(k) =~= s);
    } else {
        assert(s.insert(k).remove(k) =~= s);
    }
}

/// Moving down and back up returns to the row where the selection was, unless
/// it was already on the last row.
pub proof fn lemma_next_then_prev(i: usize, total: usize)
    requires
        i + 1 < total,
    ensures
        prev_index(next_index(i, total)) == i,
{
}

/// Moving down never leaves the rows when the selection was among them.
pub proof fn lemma_next_in_range(i: usize, total: usize)
    requires
        i < total,
    ensures
        next_index(i, total) < total,
{
}

/// The connector drawn in front of a row at one level of the tree.
#[derive(Debug, Clone, Copy, PartialEq, Eq, Structural)]
pub enum Guide {
    /// Below an ancestor that was the last of its siblings: blank.
    Blank,
    /// Below an ancestor with siblings still to come: a vertical line.
    Vertical,
    /// The row's own connector when it is the last of its siblings.
    Last,
    /// The row's own connector when siblings follow.
    Branch,
}

/// How one visible row is drawn.
#[derive(Debug)]
pub struct RowLayout {
    /// Position of the row among the visible rows.
    pub index: usize,
    /// Whether the row is the selected one.
    pub selected: bool,
    /// The connectors in front of the row, from the root down.
    pub guides: Vec<Guide>,
    /// For a node with children, whether it is folded; `None` for a leaf.
    pub icon: Option<bool>,
}

/// The connectors of a row: one per ancestor level, then its own below the root.
pub open spec fn guides_spec(parent_is_last: Seq<bool>, depth: usize, is_last: bool) -> Seq<Guide> {
    parent_is_last.map_values(|b: bool| if b { Guide::Blank } else { Guide::Vertical }) + if depth > 0 {
        seq![if is_last { Guide::Last } else { Guide::Branch }]
    } else {
        Seq::empty()
    }
}

impl TreeViewState {
    /// The rows `start..end` that a viewport of `height` rows shows of `total` rows.
    pub fn window(&self, total: usize, height: usize) -> (r: (usize, usize))
        ensures
            r.0 == (if (self.scroll as int) < total { self.scroll as int } else { total as int }),
            r.1 == (if self.scroll + height < total { self.scroll + height } else { total as int }),
            r.0 <= r.1,
    {
        let start: usize = if (self.scroll as usize) < total { self.scroll as usize } else { total };
        let end: usize = if height < total - start { start + height } else { total };
        (start, end)
    }

    /// How row `index`, holding `row`, is drawn; `has_children` tells whether its
    /// node has children.
    pub fn row_layout(&self, row: &FlatNode, index: usize, has_children: bool) -> (r: RowLayout)
        ensures
            r.index == index,
            r.selected == (index == self.selected_index),
            r.guides@ == guides_spec(row.parent_is_last@, row.depth, row.is_last),
            r.icon == (if has_children { Some(self.folded().contains(row.node.id@)) } else { None::<bool> }),
    {
        let mut guides: Vec<Guide> = Vec::new();
        let mut i: usize = 0;
        while i < row.parent_is_last.len()
            invariant
                i <= row.parent_is_last@.len(),
                guides@ == row.parent_is_last@.subrange(0, i as int).map_values(
                    |b: bool| if b { Guide::Blank } else { Guide::Vertical },
                ),
            decreases row.parent_is_last@.len() - i,
        {
            let g = if row.parent_is_last[i] { Guide::Blank } else { Guide::Vertical };
            guides.push(g);
            proof {
                assert(row.parent_is_last@.subrange(0, i as int + 1).map_values(|b: bool| if b { Guide::Blank } else { Guide::Vertical })
                    =~= row.parent_is_last@.subrange(0, i as int).map_values(|b: bool| if b { Guide::Blank } else { Guide::Vertical }).push(g));
            }
            i = i + 1;
        }
        proof {
            assert(row.parent_is_last@.subrange(0, row.parent_is_last@.len() as int) =~= row.parent_is_last@);
        }
        let ghost front = guides@;
        if row.depth > 0 {
            guides.push(if row.is_last { Guide::Last } else { Guide::Branch });
        }
        proof {
            if row.depth > 0 {
                assert(guides@ =~= front + seq![if row.is_last { Guide::Last } else { Guide::Branch }]);
            } else {
                assert(guides@ =~= front + Seq::<Guide>::empty());
            }
        }
        let icon = if has_children { Some(self.is_collapsed(row.node.id.as_str())) } else { None };
        RowLayout { index, selected: index == self.selected_index, guides, icon }
    }
}

} // verus!
