//! The directory tree: nodes that are expanded and collapsed on demand, and
//! index paths that address a node from the roots of the forest.

use vstd::prelude::*;

verus! {

/// One entry of the file system, as the browser holds it.
///
/// A node owns its children. They are there only while the node is expanded;
/// a collapsed node has none, and neither has a file.
#[derive(Debug)]
pub struct FileNode {
    pub name: String,
    pub path: String,
    pub is_dir: bool,
    pub children: Vec<FileNode>,
    pub is_expanded: bool,
}

/// The mathematical value of a [`FileNode`]: the same record over sequences.
pub struct NodeView {
    pub name: Seq<char>,
    pub path: Seq<char>,
    pub is_dir: bool,
    pub children: Seq<NodeView>,
    pub is_expanded: bool,
}

/// The value of a node: its fields, with the values of its children.
pub open spec fn node_view(node: FileNode) -> NodeView
    decreases node,
{
    NodeView {
        name: node.name@,
        path: node.path@,
        is_dir: node.is_dir,
        children: Seq::new(
            node.children@.len(),
            |i: int|
                if 0 <= i < node.children@.len() {
                    node_view(node.children@[i])
                } else {
                    arbitrary()
                },
        ),
        is_expanded: node.is_expanded,
    }
}

impl View for FileNode {
    type V = NodeView;

    open spec fn view(&self) -> NodeView {
        node_view(*self)
    }
}

/// The value of a sequence of nodes: the value of each, in order.
pub open spec fn forest_view(nodes: Seq<FileNode>) -> Seq<NodeView> {
    Seq::new(nodes.len(), |i: int| nodes[i]@)
}

impl NodeView {
    /// The state that the tree keeps every node in: only a directory can be
    /// expanded, only an expanded node has children, and the same holds of
    /// each child.
    pub open spec fn well_formed(self) -> bool
        decreases self,
    {
        &&& !self.is_dir ==> !self.is_expanded
        &&& !self.is_expanded ==> self.children.len() == 0
        &&& forall|i: int|
            0 <= i < self.children.len() ==> (#[trigger] self.children[i]).well_formed()
    }

    /// This node after `expand` was handed `listing`: a collapsed directory
    /// takes the listing as its children, any other node stays as it is.
    pub open spec fn expanded(self, listing: Seq<NodeView>) -> NodeView {
        if self.is_dir && !self.is_expanded {
            NodeView { children: listing, is_expanded: true, ..self }
        } else {
            self
        }
    }

    /// This node after `collapse`: an expanded node loses its children, any
    /// other node stays as it is.
    pub open spec fn collapsed(self) -> NodeView {
        if self.is_expanded {
            NodeView { children: Seq::empty(), is_expanded: false, ..self }
        } else {
            self
        }
    }
}

/// Every node of `forest` is well formed.
pub open spec fn forest_well_formed(forest: Seq<NodeView>) -> bool {
    forall|i: int| 0 <= i < forest.len() ==> (#[trigger] forest[i]).well_formed()
}

/// The children of a node's value are the values of its children.
pub proof fn lemma_view_children(node: FileNode)
    ensures
        node@.children == forest_view(node.children@),
{
    assert(node@.children =~= forest_view(node.children@));
}

impl FileNode {
    /// A collapsed node without children.
    pub fn new(name: String, path: String, is_dir: bool) -> (node: FileNode)
        ensures
            node@ == (NodeView {
                name: name@,
                path: path@,
                is_dir,
                children: Seq::empty(),
                is_expanded: false,
            }),
            node@.well_formed(),
    {
        let node = FileNode { name, path, is_dir, children: Vec::new(), is_expanded: false };
        proof {
            lemma_view_children(node);
            assert(node@.children =~= Seq::empty());
        }
        node
    }

    /// Expands a collapsed directory with the listing of its contents.
    ///
    /// A file and a directory that is already expanded are left as they are,
    /// and the listing is dropped.
    pub fn expand(&mut self, listing: Vec<FileNode>)
        ensures
            final(self)@ == old(self)@.expanded(forest_view(listing@)),
            old(self)@.well_formed() && forest_well_formed(forest_view(listing@))
                ==> final(self)@.well_formed(),
    {
        if self.is_dir && !self.is_expanded {
            self.children = listing;
            self.is_expanded = true;
            proof {
                lemma_view_children(*self);
            }
        }
    }

    /// Collapses an expanded node: its children are dropped.
    pub fn collapse(&mut self)
        ensures
            final(self)@ == old(self)@.collapsed(),
            old(self)@.well_formed() ==> final(self)@.well_formed(),
    {
        if self.is_expanded {
            self.children.clear();
            self.is_expanded = false;
            proof {
                lemma_view_children(*self);
                assert(self@.children =~= Seq::empty());
            }
        }
    }
}

/// Collapsing a directory after expanding it leaves it collapsed and without
/// children, whatever it held and whatever the listing was.
pub proof fn lemma_collapse_after_expand(dir: NodeView, listing: Seq<NodeView>)
    requires
        dir.is_dir,
    ensures
        dir.expanded(listing).collapsed().children.len() == 0,
        !dir.expanded(listing).collapsed().is_expanded,
{
}

/// Expanding a directory after collapsing it gives it exactly the listing
/// as its children; with the children it had before, it is the directory
/// it was.
pub proof fn lemma_expand_after_collapse(dir: NodeView, listing: Seq<NodeView>)
    requires
        dir.is_dir,
    ensures
        dir.collapsed().expanded(listing).children == listing,
        dir.collapsed().expanded(listing).is_expanded,
        dir.is_expanded ==> dir.collapsed().expanded(dir.children) == dir,
{
}

/// Expanding and collapsing keep a node well formed, if the listing is.
pub proof fn lemma_toggle_keeps_well_formed(node: NodeView, listing: Seq<NodeView>)
    requires
        node.well_formed(),
        forest_well_formed(listing),
    ensures
        node.expanded(listing).well_formed(),
        node.collapsed().well_formed(),
{
}

/// The node that an index path leads to: the first index picks a root, each
/// further index a child of the node before. `None` where the path is empty
/// or an index is out of range.
pub open spec fn node_at(forest: Seq<NodeView>, path: Seq<usize>) -> Option<NodeView>
    decreases path.len(),
{
    if path.len() == 0 || path[0] >= forest.len() {
        None
    } else if path.len() == 1 {
        Some(forest[path[0] as int])
    } else {
        node_at(forest[path[0] as int].children, path.subrange(1, path.len() as int))
    }
}

/// The forest with the node at `path` replaced by `node`, and nothing else
/// changed. Where the path leads to no node, the forest itself.
pub open spec fn replace_at(forest: Seq<NodeView>, path: Seq<usize>, node: NodeView) -> Seq<
    NodeView,
>
    decreases path.len(),
{
    if path.len() == 0 || path[0] >= forest.len() {
        forest
    } else if path.len() == 1 {
        forest.update(path[0] as int, node)
    } else {
        let child = forest[path[0] as int];
        forest.update(
            path[0] as int,
            NodeView {
                children: replace_at(child.children, path.subrange(1, path.len() as int), node),
                ..child
            },
        )
    }
}

/// Replacing a node by itself changes nothing.
pub proof fn lemma_replace_same(forest: Seq<NodeView>, path: Seq<usize>)
    ensures
        node_at(forest, path) matches Some(node) ==> replace_at(forest, path, node) == forest,
    decreases path.len(),
{
    if path.len() > 1 && path[0] < forest.len() {
        let child = forest[path[0] as int];
        let rest = path.subrange(1, path.len() as int);
        lemma_replace_same(child.children, rest);
        if node_at(child.children, rest) is Some {
            let node = node_at(child.children, rest)->0;
            assert(NodeView { children: replace_at(child.children, rest, node), ..child } == child);
            assert(forest.update(path[0] as int, child) =~= forest);
        }
    } else if path.len() == 1 && path[0] < forest.len() {
        assert(forest.update(path[0] as int, forest[path[0] as int]) =~= forest);
    }
}

/// After a node was replaced, the path leads to the new node.
pub proof fn lemma_node_at_replaced(forest: Seq<NodeView>, path: Seq<usize>, node: NodeView)
    requires
        node_at(forest, path) is Some,
    ensures
        node_at(replace_at(forest, path, node), path) == Some(node),
    decreases path.len(),
{
    if path.len() > 1 {
        let child = forest[path[0] as int];
        let rest = path.subrange(1, path.len() as int);
        lemma_node_at_replaced(child.children, rest, node);
    }
}

/// Of two replacements at one path only the second counts.
pub proof fn lemma_replace_twice(
    forest: Seq<NodeView>,
    path: Seq<usize>,
    first: NodeView,
    second: NodeView,
)
    ensures
        replace_at(replace_at(forest, path, first), path, second) == replace_at(
            forest,
            path,
            second,
        ),
    decreases path.len(),
{
    if path.len() > 0 && path[0] < forest.len() {
        let i = path[0] as int;
        if path.len() == 1 {
            assert(forest.update(i, first).update(i, second) =~= forest.update(i, second));
        } else {
            let child = forest[i];
            let rest = path.subrange(1, path.len() as int);
            lemma_replace_twice(child.children, rest, first, second);
            let once = NodeView { children: replace_at(child.children, rest, first), ..child };
            let twice = NodeView { children: replace_at(once.children, rest, second), ..once };
            assert(forest.update(i, once).update(i, twice) =~= forest.update(i, twice));
        }
    }
}

/// Collapsing an expanded directory and expanding it again with the
/// listing that it held gives back the forest as it was, and so the rows
/// that were visible.
pub proof fn lemma_reexpand_restores_forest(forest: Seq<NodeView>, path: Seq<usize>)
    requires
        node_at(forest, path) matches Some(dir) && dir.is_dir && dir.is_expanded,
    ensures
        ({
            let dir = node_at(forest, path)->0;
            let collapsed = replace_at(forest, path, dir.collapsed());
            &&& node_at(collapsed, path) == Some(dir.collapsed())
            &&& replace_at(collapsed, path, dir.collapsed().expanded(dir.children)) == forest
            &&& visible_rows(replace_at(collapsed, path, dir.collapsed().expanded(dir.children)))
                == visible_rows(forest)
        }),
{
    let dir = node_at(forest, path)->0;
    lemma_node_at_replaced(forest, path, dir.collapsed());
    lemma_replace_twice(forest, path, dir.collapsed(), dir.collapsed().expanded(dir.children));
    lemma_expand_after_collapse(dir, dir.children);
    lemma_replace_same(forest, path);
}

/// A node of a well-formed forest is well formed.
pub proof fn lemma_node_at_well_formed(forest: Seq<NodeView>, path: Seq<usize>)
    requires
        forest_well_formed(forest),
    ensures
        node_at(forest, path) matches Some(node) ==> node.well_formed(),
    decreases path.len(),
{
    if path.len() > 1 && path[0] < forest.len() {
        lemma_node_at_well_formed(
            forest[path[0] as int].children,
            path.subrange(1, path.len() as int),
        );
    }
}

/// Replacing a node by a well-formed node keeps a forest well formed.
pub proof fn lemma_replace_keeps_well_formed(
    forest: Seq<NodeView>,
    path: Seq<usize>,
    node: NodeView,
)
    requires
        forest_well_formed(forest),
        node.well_formed(),
    ensures
        forest_well_formed(replace_at(forest, path, node)),
    decreases path.len(),
{
    if path.len() > 1 && path[0] < forest.len() {
        let child = forest[path[0] as int];
        let rest = path.subrange(1, path.len() as int);
        lemma_replace_keeps_well_formed(child.children, rest, node);
        lemma_replace_keeps_length(child.children, rest, node);
        let changed = NodeView { children: replace_at(child.children, rest, node), ..child };
        assert(changed.well_formed());
    }
}

/// Replacing a node keeps the number of roots.
pub proof fn lemma_replace_keeps_length(forest: Seq<NodeView>, path: Seq<usize>, node: NodeView)
    ensures
        replace_at(forest, path, node).len() == forest.len(),
{
}

/// Replacing one node of a sequence replaces its value in the sequence's
/// value.
pub proof fn lemma_forest_view_update(nodes: Seq<FileNode>, i: int, node: FileNode)
    requires
        0 <= i < nodes.len(),
    ensures
        forest_view(nodes.update(i, node)) == forest_view(nodes).update(i, node@),
{
    assert(forest_view(nodes.update(i, node)) =~= forest_view(nodes).update(i, node@));
}

/// Follows an index path to a node of the forest.
pub fn find_node<'a>(nodes: &'a [FileNode], idx_path: &[usize]) -> (found: Option<&'a FileNode>)
    ensures
        found is Some <==> node_at(forest_view(nodes@), idx_path@) is Some,
        found matches Some(node) ==> Some(node@) == node_at(forest_view(nodes@), idx_path@),
    decreases idx_path@.len(),
{
    if idx_path.len() == 0 {
        return None;
    }
    let first = idx_path[0];
    if first >= nodes.len() {
        return None;
    }
    let node = &nodes[first];
    if idx_path.len() == 1 {
        Some(node)
    } else {
        proof {
            lemma_view_children(*node);
        }
        find_node(node.children.as_slice(), &idx_path[1..idx_path.len()])
    }
}

/// Follows an index path to a node of the forest and lends it out for
/// change.
///
/// Whatever the borrower does to the node is what happens to the forest at
/// that path; the rest of the forest stays as it was.
pub fn with_node_mut<'a>(nodes: &'a mut [FileNode], idx_path: &[usize]) -> (found: Option<
    &'a mut FileNode,
>)
    ensures
        found is Some <==> node_at(forest_view(old(nodes)@), idx_path@) is Some,
        found is Some ==> Some((*found->0)@) == node_at(forest_view(old(nodes)@), idx_path@),
        found is Some ==> forest_view(final(nodes)@) == replace_at(
            forest_view(old(nodes)@),
            idx_path@,
            (*final(found->0))@,
        ),
        found is None ==> forest_view(final(nodes)@) == forest_view(old(nodes)@),
    decreases idx_path@.len(),
{
    if idx_path.len() == 0 {
        return None;
    }
    let first = idx_path[0];
    if first >= nodes.len() {
        return None;
    }
    let node = &mut nodes[first];
    let ghost before = forest_view(old(nodes)@);
    let ghost node_before = *node;
    let ghost node_after = *final(node);
    proof {
        lemma_forest_view_update(old(nodes)@, first as int, node_after);
        lemma_view_children(node_before);
        lemma_view_children(node_after);
    }
    if idx_path.len() == 1 {
        Some(node)
    } else {
        let rest = &idx_path[1..idx_path.len()];
        let found = with_node_mut(&mut node.children, rest);
        proof {
            if found is None {
                assert(before.update(first as int, node_after@) =~= before);
            }
        }
        found
    }
}

/// One visible row: a snapshot of a node, with the index path that leads
/// back to it and the depth at which it is drawn.
#[derive(Debug, Clone)]
pub struct FlatItem {
    pub idx_path: Vec<usize>,
    pub name: String,
    pub path: String,
    pub is_dir: bool,
    pub is_expanded: bool,
    pub indent: usize,
}

/// The mathematical value of a [`FlatItem`].
pub struct RowView {
    pub idx_path: Seq<usize>,
    pub name: Seq<char>,
    pub path: Seq<char>,
    pub is_dir: bool,
    pub is_expanded: bool,
    pub indent: nat,
}

impl View for FlatItem {
    type V = RowView;

    open spec fn view(&self) -> RowView {
        RowView {
            idx_path: self.idx_path@,
            name: self.name@,
            path: self.path@,
            is_dir: self.is_dir,
            is_expanded: self.is_expanded,
            indent: self.indent as nat,
        }
    }
}

/// The values of a sequence of rows, in order.
pub open spec fn rows_view(items: Seq<FlatItem>) -> Seq<RowView> {
    Seq::new(items.len(), |i: int| items[i]@)
}

/// The row that shows `node`, which `idx_path` leads to: the node's own
/// fields, and as its depth the number of nodes above it.
pub open spec fn row_of(node: NodeView, idx_path: Seq<usize>) -> RowView {
    RowView {
        idx_path,
        name: node.name,
        path: node.path,
        is_dir: node.is_dir,
        is_expanded: node.is_expanded,
        indent: (idx_path.len() - 1) as nat,
    }
}

/// The rows of one node: its own row, then, if it is an expanded directory,
/// the rows of its children.
pub open spec fn node_rows(node: NodeView, idx_path: Seq<usize>) -> Seq<RowView>
    decreases node, 0nat,
{
    if node.is_dir && node.is_expanded {
        seq![row_of(node, idx_path)] + forest_rows(node.children, idx_path, node.children.len())
    } else {
        seq![row_of(node, idx_path)]
    }
}

/// The rows of the first `count` nodes of `nodes`, whose parent `prefix`
/// leads to: the rows of each node in turn.
pub open spec fn forest_rows(nodes: Seq<NodeView>, prefix: Seq<usize>, count: nat) -> Seq<RowView>
    decreases nodes, count,
{
    if count == 0 || count > nodes.len() {
        Seq::empty()
    } else {
        forest_rows(nodes, prefix, (count - 1) as nat) + node_rows(
            nodes[count - 1],
            prefix.push((count - 1) as usize),
        )
    }
}

/// What is visible of a forest: the rows of its roots, in pre-order.
pub open spec fn visible_rows(forest: Seq<NodeView>) -> Seq<RowView> {
    forest_rows(forest, Seq::empty(), forest.len())
}

/// Each node has a row of its own: the first `count` nodes show at least
/// `count` rows.
pub proof fn lemma_each_node_has_a_row(nodes: Seq<NodeView>, prefix: Seq<usize>, count: nat)
    requires
        count <= nodes.len(),
    ensures
        forest_rows(nodes, prefix, count).len() >= count,
    decreases count,
{
    if count > 0 {
        lemma_each_node_has_a_row(nodes, prefix, (count - 1) as nat);
        let own = node_rows(nodes[count - 1], prefix.push((count - 1) as usize));
        assert(own[0] == row_of(nodes[count - 1], prefix.push((count - 1) as usize)));
        assert(own.len() >= 1);
    }
}

/// Every sequence of siblings in the forest is short enough for its
/// positions to be numbers of the machine. This holds of the value of every
/// forest that the machine holds.
pub open spec fn indexable(forest: Seq<NodeView>) -> bool
    decreases forest,
{
    &&& forest.len() <= usize::MAX
    &&& forall|i: int|
        0 <= i < forest.len() ==> indexable((#[trigger] forest[i]).children)
}

/// The value of a sequence of nodes is indexable.
pub proof fn lemma_views_are_indexable(nodes: Seq<FileNode>)
    requires
        nodes.len() <= usize::MAX,
    ensures
        indexable(forest_view(nodes)),
    decreases nodes,
{
    assert forall|i: int| 0 <= i < nodes.len() implies indexable(
        (#[trigger] forest_view(nodes)[i]).children,
    ) by {
        lemma_view_children(nodes[i]);
        assert(nodes[i].children@.len() == nodes[i].children.len());
        lemma_views_are_indexable(nodes[i].children@);
    }
}

/// Whether `row` shows a node of `forest`, where `prefix` leads to the
/// parent of the forest's roots: the row's index path is `prefix` followed
/// by a path that leads to a node of the forest, and the row is the row of
/// that node.
pub open spec fn shows_node_of(forest: Seq<NodeView>, prefix: Seq<usize>, row: RowView) -> bool {
    &&& row.idx_path.len() > prefix.len()
    &&& row.idx_path.subrange(0, prefix.len() as int) == prefix
    &&& node_at(forest, row.idx_path.subrange(prefix.len() as int, row.idx_path.len() as int))
        matches Some(node) && row == row_of(node, row.idx_path)
}

/// Each row of a forest shows the node that the row's index path leads to.
pub proof fn lemma_forest_rows_show_nodes(
    nodes: Seq<NodeView>,
    prefix: Seq<usize>,
    count: nat,
    k: int,
)
    requires
        indexable(nodes),
        count <= nodes.len(),
        0 <= k < forest_rows(nodes, prefix, count).len(),
    ensures
        shows_node_of(nodes, prefix, forest_rows(nodes, prefix, count)[k]),
        forest_rows(nodes, prefix, count)[k].idx_path[prefix.len() as int] < count,
    decreases nodes, count,
{
    let before = forest_rows(nodes, prefix, (count - 1) as nat);
    if k < before.len() {
        lemma_forest_rows_show_nodes(nodes, prefix, (count - 1) as nat, k);
    } else {
        let j = k - before.len();
        let node = nodes[count - 1];
        let path = prefix.push((count - 1) as usize);
        let row = forest_rows(nodes, prefix, count)[k];
        assert(row == node_rows(node, path)[j]);
        assert(path.subrange(0, prefix.len() as int) =~= prefix);
        if j == 0 {
            assert(row == row_of(node, path));
            assert(path.subrange(prefix.len() as int, path.len() as int) =~= seq![
                (count - 1) as usize,
            ]);
        } else {
            lemma_forest_rows_show_nodes(node.children, path, node.children.len(), j - 1);
            let whole = row.idx_path;
            let inner = whole.subrange(path.len() as int, whole.len() as int);
            let outer = whole.subrange(prefix.len() as int, whole.len() as int);
            assert(whole.subrange(0, path.len() as int) == path);
            assert(whole.subrange(0, prefix.len() as int) =~= path.subrange(
                0,
                prefix.len() as int,
            ));
            assert(outer[0] == path[prefix.len() as int]);
            assert(outer.subrange(1, outer.len() as int) =~= inner);
        }
    }
}

/// The rows of the first `count` nodes depend on those nodes only.
pub proof fn lemma_forest_rows_of_equal_nodes(
    a: Seq<NodeView>,
    b: Seq<NodeView>,
    prefix: Seq<usize>,
    count: nat,
)
    requires
        count <= a.len(),
        count <= b.len(),
        forall|i: int| 0 <= i < count ==> a[i] == b[i],
    ensures
        forest_rows(a, prefix, count) == forest_rows(b, prefix, count),
    decreases count,
{
    if count > 0 {
        lemma_forest_rows_of_equal_nodes(a, b, prefix, (count - 1) as nat);
    }
}

/// Putting `mid` in place of a stretch of `before` commutes with appending
/// `own` behind it.
proof fn lemma_splice_in_front(
    before: Seq<RowView>,
    own: Seq<RowView>,
    k: int,
    m: int,
    mid: Seq<RowView>,
)
    requires
        0 <= k,
        0 <= m,
        k + m <= before.len(),
    ensures
        (before.take(k) + mid + before.skip(k + m)) + own == (before + own).take(k) + mid + (before
            + own).skip(k + m),
        (before + own).subrange(k, k + m) == before.subrange(k, k + m),
{
    assert((before + own).take(k) =~= before.take(k));
    assert((before + own).skip(k + m) =~= before.skip(k + m) + own);
    assert((before.take(k) + mid + before.skip(k + m)) + own =~= before.take(k) + mid + (
    before.skip(k + m) + own));
    assert((before + own).subrange(k, k + m) =~= before.subrange(k, k + m));
}

/// Putting `mid` in place of a stretch of `inner` commutes with putting
/// `before` and `head` in front of it.
proof fn lemma_splice_behind(
    before: Seq<RowView>,
    head: RowView,
    inner: Seq<RowView>,
    j: int,
    m: int,
    mid: Seq<RowView>,
)
    requires
        1 <= j,
        0 <= m,
        j - 1 + m <= inner.len(),
    ensures
        ({
            let rows = before + (seq![head] + inner);
            let k = before.len() + j;
            &&& before + (seq![head] + (inner.take(j - 1) + mid + inner.skip(j - 1 + m)))
                == rows.take(k) + mid + rows.skip(k + m)
            &&& rows.subrange(k, k + m) == inner.subrange(j - 1, j - 1 + m)
        }),
{
    let rows = before + (seq![head] + inner);
    let k = before.len() + j;
    assert(rows.take(k) =~= before + seq![head] + inner.take(j - 1));
    assert(rows.skip(k + m) =~= inner.skip(j - 1 + m));
    assert(before + (seq![head] + (inner.take(j - 1) + mid + inner.skip(j - 1 + m))) =~= (before
        + seq![head] + inner.take(j - 1)) + mid + inner.skip(j - 1 + m));
    assert(rows.subrange(k, k + m) =~= inner.subrange(j - 1, j - 1 + m));
}

/// Replacing the node that a row shows replaces that node's rows, and no
/// others: the rows before them and the rows after them stay as they are.
pub proof fn lemma_forest_rows_after_replace(
    nodes: Seq<NodeView>,
    prefix: Seq<usize>,
    count: nat,
    k: int,
    new: NodeView,
)
    requires
        indexable(nodes),
        count <= nodes.len(),
        0 <= k < forest_rows(nodes, prefix, count).len(),
    ensures
        ({
            let rows = forest_rows(nodes, prefix, count);
            let whole = rows[k].idx_path;
            let path = whole.subrange(prefix.len() as int, whole.len() as int);
            let old_rows = node_rows(node_at(nodes, path)->0, whole);
            &&& k + old_rows.len() <= rows.len()
            &&& rows.subrange(k, k + old_rows.len()) == old_rows
            &&& forest_rows(replace_at(nodes, path, new), prefix, count) == rows.take(k)
                + node_rows(new, whole) + rows.skip(k + old_rows.len())
        }),
    decreases nodes, count,
{
    let rows = forest_rows(nodes, prefix, count);
    let whole = rows[k].idx_path;
    let path = whole.subrange(prefix.len() as int, whole.len() as int);
    let old_rows = node_rows(node_at(nodes, path)->0, whole);
    let changed = replace_at(nodes, path, new);
    let before = forest_rows(nodes, prefix, (count - 1) as nat);
    let root = nodes[count - 1];
    let root_path = prefix.push((count - 1) as usize);
    let own = node_rows(root, root_path);
    lemma_forest_rows_show_nodes(nodes, prefix, count, k);
    lemma_replace_keeps_length(nodes, path, new);
    assert(rows == before + own);
    assert(forest_rows(changed, prefix, count) == forest_rows(
        changed,
        prefix,
        (count - 1) as nat,
    ) + node_rows(changed[count - 1], root_path));
    if k < before.len() {
        lemma_forest_rows_show_nodes(nodes, prefix, (count - 1) as nat, k);
        lemma_forest_rows_after_replace(nodes, prefix, (count - 1) as nat, k, new);
        assert(path[0] < count - 1);
        assert(changed[count - 1] == root);
        lemma_splice_in_front(before, own, k, old_rows.len() as int, node_rows(new, whole));
    } else {
        let j = k - before.len();
        assert(rows[k] == own[j]);
        assert(root_path.subrange(0, prefix.len() as int) =~= prefix);
        if j == 0 {
            assert(own[0] == row_of(root, root_path));
            assert(whole == root_path);
            assert(path =~= seq![(count - 1) as usize]);
            assert(path[0] == count - 1);
            assert(changed == nodes.update(count - 1, new));
            lemma_forest_rows_of_equal_nodes(nodes, changed, prefix, (count - 1) as nat);
            assert(rows.take(k) =~= before);
            assert(old_rows == own);
            assert(rows.skip(k + old_rows.len()) =~= Seq::<RowView>::empty());
            assert(rows.subrange(k, k + old_rows.len()) =~= own);
            assert(before + node_rows(new, whole) =~= rows.take(k) + node_rows(new, whole)
                + rows.skip(k + old_rows.len()));
        } else {
            let inner_rows = forest_rows(root.children, root_path, root.children.len());
            assert(own == seq![row_of(root, root_path)] + inner_rows);
            assert(own[j] == inner_rows[j - 1]);
            lemma_forest_rows_show_nodes(root.children, root_path, root.children.len(), j - 1);
            lemma_forest_rows_after_replace(
                root.children,
                root_path,
                root.children.len(),
                j - 1,
                new,
            );
            let inner = whole.subrange(root_path.len() as int, whole.len() as int);
            assert(whole.subrange(0, root_path.len() as int) == root_path);
            assert(whole[prefix.len() as int] == whole.subrange(0, root_path.len() as int)[prefix.len() as int]);
            assert(path[0] == count - 1);
            assert(path.subrange(1, path.len() as int) =~= inner);
            let new_root = NodeView { children: replace_at(root.children, inner, new), ..root };
            assert(changed == nodes.update(count - 1, new_root));
            lemma_forest_rows_of_equal_nodes(nodes, changed, prefix, (count - 1) as nat);
            lemma_replace_keeps_length(root.children, inner, new);
            assert(row_of(new_root, root_path) == row_of(root, root_path));
            assert(node_rows(new_root, root_path) == seq![row_of(root, root_path)] + forest_rows(
                new_root.children,
                root_path,
                root.children.len(),
            ));
            assert(node_at(nodes, path) == node_at(root.children, inner));
            lemma_splice_behind(
                before,
                row_of(root, root_path),
                inner_rows,
                j,
                old_rows.len() as int,
                node_rows(new, whole),
            );
        }
    }
}

/// Replacing the node that the visible row `k` shows replaces the rows of
/// that node, which begin at `k`, by the rows of the new node; every other
/// row stays where it is or moves as a whole.
pub proof fn lemma_rows_after_replace(forest: Seq<NodeView>, k: int, new: NodeView)
    requires
        indexable(forest),
        0 <= k < visible_rows(forest).len(),
    ensures
        ({
            let rows = visible_rows(forest);
            let path = rows[k].idx_path;
            let old_rows = node_rows(node_at(forest, path)->0, path);
            &&& k + old_rows.len() <= rows.len()
            &&& rows.subrange(k, k + old_rows.len()) == old_rows
            &&& visible_rows(replace_at(forest, path, new)) == rows.take(k) + node_rows(new, path)
                + rows.skip(k + old_rows.len())
        }),
{
    let path = visible_rows(forest)[k].idx_path;
    assert(path.subrange(0, path.len() as int) =~= path);
    lemma_forest_rows_after_replace(forest, Seq::empty(), forest.len(), k, new);
    lemma_replace_keeps_length(forest, path, new);
}

/// Expanding the collapsed directory that the visible row `k` shows puts
/// the rows of the listing right behind that row; the rows before it and
/// the rows behind it stay as they are.
pub proof fn lemma_rows_after_expand(forest: Seq<NodeView>, k: int, listing: Seq<NodeView>)
    requires
        indexable(forest),
        0 <= k < visible_rows(forest).len(),
        visible_rows(forest)[k].is_dir,
        !visible_rows(forest)[k].is_expanded,
    ensures
        ({
            let rows = visible_rows(forest);
            let path = rows[k].idx_path;
            let node = node_at(forest, path)->0;
            visible_rows(replace_at(forest, path, node.expanded(listing))) == rows.take(k) + seq![
                RowView { is_expanded: true, ..rows[k] },
            ] + forest_rows(listing, path, listing.len()) + rows.skip(k + 1)
        }),
{
    let rows = visible_rows(forest);
    let path = rows[k].idx_path;
    lemma_rows_show_nodes(forest, k);
    let node = node_at(forest, path)->0;
    lemma_rows_after_replace(forest, k, node.expanded(listing));
    assert(node_rows(node, path) =~= seq![rows[k]]);
    assert(node_rows(node.expanded(listing), path) =~= seq![
        RowView { is_expanded: true, ..rows[k] },
    ] + forest_rows(listing, path, listing.len()));
}

/// Collapsing the expanded directory that the visible row `k` shows takes
/// away the rows of what it held, which stood right behind that row; the
/// rows before it and the rows behind those stay as they are. No more rows
/// are visible than before.
pub proof fn lemma_rows_after_collapse(forest: Seq<NodeView>, k: int)
    requires
        indexable(forest),
        0 <= k < visible_rows(forest).len(),
        visible_rows(forest)[k].is_dir,
        visible_rows(forest)[k].is_expanded,
    ensures
        ({
            let rows = visible_rows(forest);
            let path = rows[k].idx_path;
            let node = node_at(forest, path)->0;
            let held = forest_rows(node.children, path, node.children.len());
            &&& k + 1 + held.len() <= rows.len()
            &&& rows.subrange(k + 1, k + 1 + held.len()) == held
            &&& visible_rows(replace_at(forest, path, node.collapsed())) == rows.take(k) + seq![
                RowView { is_expanded: false, ..rows[k] },
            ] + rows.skip(k + 1 + held.len())
            &&& visible_rows(replace_at(forest, path, node.collapsed())).len() <= rows.len()
        }),
{
    let rows = visible_rows(forest);
    let path = rows[k].idx_path;
    lemma_rows_show_nodes(forest, k);
    let node = node_at(forest, path)->0;
    let held = forest_rows(node.children, path, node.children.len());
    lemma_rows_after_replace(forest, k, node.collapsed());
    assert(node_rows(node, path) =~= seq![rows[k]] + held);
    assert(node_rows(node.collapsed(), path) =~= seq![RowView { is_expanded: false, ..rows[k] }]);
    assert(rows.subrange(k + 1, k + 1 + held.len()) =~= rows.subrange(
        k,
        k + 1 + held.len(),
    ).skip(1));
}

/// Each visible row shows the node that its index path leads to from the
/// roots: the path that a row carries finds the row's own node again.
pub proof fn lemma_rows_show_nodes(forest: Seq<NodeView>, k: int)
    requires
        indexable(forest),
        0 <= k < visible_rows(forest).len(),
    ensures
        node_at(forest, visible_rows(forest)[k].idx_path) matches Some(node) && visible_rows(
            forest,
        )[k] == row_of(node, visible_rows(forest)[k].idx_path),
{
    lemma_forest_rows_show_nodes(forest, Seq::empty(), forest.len(), k);
    let path = visible_rows(forest)[k].idx_path;
    assert(path.subrange(0, path.len() as int) =~= path);
}

/// Appends to `out` the rows of `nodes`, which are the children of the node
/// that `prefix` leads to (the roots, where `prefix` is empty).
fn walk(out: &mut Vec<FlatItem>, nodes: &[FileNode], prefix: &Vec<usize>, indent: usize)
    requires
        prefix@.len() == indent,
    ensures
        rows_view(final(out)@) == rows_view(old(out)@) + forest_rows(
            forest_view(nodes@),
            prefix@,
            nodes@.len(),
        ),
    decreases forest_view(nodes@),
{
    let ghost forest = forest_view(nodes@);
    let ghost base = rows_view(out@);
    let mut i: usize = 0;
    while i < nodes.len()
        invariant
            i <= nodes.len(),
            prefix@.len() == indent,
            forest == forest_view(nodes@),
            rows_view(out@) == base + forest_rows(forest, prefix@, i as nat),
        decreases nodes.len() - i,
    {
        let node = &nodes[i];
        let mut idx_path = prefix.clone();
        idx_path.push(i);
        let item = FlatItem {
            idx_path: idx_path.clone(),
            name: node.name.clone(),
            path: node.path.clone(),
            is_dir: node.is_dir,
            is_expanded: node.is_expanded,
            indent,
        };
        let ghost before = rows_view(out@);
        out.push(item);
        proof {
            lemma_view_children(*node);
            assert(item@ == row_of(forest[i as int], idx_path@));
            assert(rows_view(out@) =~= before + seq![item@]);
        }
        if node.is_dir && node.is_expanded {
            walk(out, node.children.as_slice(), &idx_path, indent + 1);
        }
        proof {
            let done = forest_rows(forest, prefix@, i as nat);
            let this = node_rows(forest[i as int], idx_path@);
            assert(idx_path@ == prefix@.push(i));
            assert(forest_rows(forest, prefix@, (i + 1) as nat) == done + this);
            assert(rows_view(out@) =~= (base + done) + this);
            assert((base + done) + this =~= base + (done + this));
        }
        i += 1;
    }
}

/// Flattens the forest into the rows that are visible: a depth-first,
/// pre-order walk that enters expanded directories only.
pub fn flatten(nodes: &[FileNode]) -> (rows: Vec<FlatItem>)
    ensures
        rows_view(rows@) == visible_rows(forest_view(nodes@)),
{
    let mut out: Vec<FlatItem> = Vec::new();
    let prefix: Vec<usize> = Vec::new();
    walk(&mut out, nodes, &prefix, 0);
    proof {
        assert(rows_view(out@) =~= visible_rows(forest_view(nodes@)));
    }
    out
}

} // verus!
