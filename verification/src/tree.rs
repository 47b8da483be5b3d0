//! A selectable hierarchy: its rows, its cursor and what keys do to it.

use smol_bitmap::SmolBitmap;
use vstd::prelude::*;
use vstd::string::*;

use crate::bits::{bits_new, bits_set, flags, set_bits};
use crate::color::Color;
use crate::events::{text_option, EventView, Flow, FlowView, HitTag, Slot, UiEvent};
use crate::geometry::sat_add;
use crate::input::{Key, Mouse};
use crate::markup::Border;
use crate::select::text_content;
use crate::status::cell_count;
use crate::strings::same_text;
use crate::text::{content, ClusterView, Text};

verus! {

/// One independently colored, right-aligned tree-row annotation.
pub struct TreeAnnotation {
    /// Its text.
    pub text: Text,
    /// Its color; the theme's muted one without.
    pub color: Option<Color>,
}

/// An annotation's text and color.
pub struct AnnotationView {
    /// Its text.
    pub text: Seq<ClusterView>,
    /// Its color.
    pub color: Option<Color>,
}

impl View for TreeAnnotation {
    type V = AnnotationView;

    open spec fn view(&self) -> AnnotationView {
        AnnotationView { text: self.text@, color: self.color }
    }
}

/// The views of annotations.
pub open spec fn annotation_views(annotations: Seq<TreeAnnotation>) -> Seq<AnnotationView> {
    annotations.map_values(|annotation: TreeAnnotation| annotation@)
}

/// What a node shows.
pub struct NodeFace {
    /// The node.
    pub slot: Slot,
    /// Stable application-facing key, for nodes that have one.
    pub key: Option<String>,
    /// Label.
    pub label: Text,
    /// Dim segment before the label.
    pub prefix: Text,
    /// Right-aligned annotations.
    pub annotations: Vec<TreeAnnotation>,
    /// Trailing action chip; empty for none.
    pub action: Text,
    /// Leading glyph; empty for none.
    pub lead: Text,
    /// Color of the leading glyph; the theme's accent without.
    pub lead_color: Option<Color>,
    /// Color of the action chip; the theme's accent without.
    pub action_color: Option<Color>,
    /// Fill of the action chip.
    pub chip: Color,
    /// Fill of the action chip under the pointer.
    pub chip_hover: Color,
    /// Whether the label is bold.
    pub bold: bool,
    /// Whether the label is dim.
    pub dim: bool,
}

/// What a node shows.
pub struct FaceView {
    /// The node.
    pub slot: Slot,
    /// Its own key.
    pub key: Option<Seq<char>>,
    /// Label.
    pub label: Seq<ClusterView>,
    /// Dim segment before the label.
    pub prefix: Seq<ClusterView>,
    /// Right-aligned annotations.
    pub annotations: Seq<AnnotationView>,
    /// Trailing action chip.
    pub action: Seq<ClusterView>,
    /// Leading glyph.
    pub lead: Seq<ClusterView>,
    /// Color of the leading glyph.
    pub lead_color: Option<Color>,
    /// Color of the action chip.
    pub action_color: Option<Color>,
    /// Fill of the action chip.
    pub chip: Color,
    /// Fill of the action chip under the pointer.
    pub chip_hover: Color,
    /// Whether the label is bold.
    pub bold: bool,
    /// Whether the label is dim.
    pub dim: bool,
}

impl View for NodeFace {
    type V = FaceView;

    open spec fn view(&self) -> FaceView {
        FaceView {
            slot: self.slot,
            key: text_option(self.key),
            label: self.label@,
            prefix: self.prefix@,
            annotations: annotation_views(self.annotations@),
            action: self.action@,
            lead: self.lead@,
            lead_color: self.lead_color,
            action_color: self.action_color,
            chip: self.chip,
            chip_hover: self.chip_hover,
            bold: self.bold,
            dim: self.dim,
        }
    }
}

impl NodeFace {
    /// A face that shows nothing yet.
    pub fn new(slot: Slot) -> (face: Self)
        ensures
            face@ == (FaceView {
                slot,
                key: None,
                label: Seq::empty(),
                prefix: Seq::empty(),
                annotations: Seq::empty(),
                action: Seq::empty(),
                lead: Seq::empty(),
                lead_color: None,
                action_color: None,
                chip: Color::Default,
                chip_hover: Color::Default,
                bold: false,
                dim: false,
            }),
    {
        let face = NodeFace {
            slot,
            key: None,
            label: Text::empty(),
            prefix: Text::empty(),
            annotations: Vec::new(),
            action: Text::empty(),
            lead: Text::empty(),
            lead_color: None,
            action_color: None,
            chip: Color::Default,
            chip_hover: Color::Default,
            bold: false,
            dim: false,
        };
        assert(face@.annotations =~= Seq::empty());
        face
    }

    /// The same face.
    pub fn copy(&self) -> (face: Self)
        ensures
            face@ == self@,
    {
        let mut annotations: Vec<TreeAnnotation> = Vec::new();
        let mut at: usize = 0;
        while at < self.annotations.len()
            invariant
                at <= self.annotations@.len(),
                annotations@.len() == at,
                forall|i: int|
                    0 <= i < at ==> (#[trigger] annotations@[i])@ == self.annotations@[i]@,
            decreases self.annotations.len() - at,
        {
            annotations.push(
                TreeAnnotation {
                    text: self.annotations[at].text.copy(),
                    color: self.annotations[at].color,
                },
            );
            at += 1;
        }
        let face = NodeFace {
            slot: self.slot,
            key: match &self.key {
                Some(key) => Some(key.clone()),
                None => None,
            },
            label: self.label.copy(),
            prefix: self.prefix.copy(),
            annotations,
            action: self.action.copy(),
            lead: self.lead.copy(),
            lead_color: self.lead_color,
            action_color: self.action_color,
            chip: self.chip,
            chip_hover: self.chip_hover,
            bold: self.bold,
            dim: self.dim,
        };
        assert(face@.annotations =~= self@.annotations);
        face
    }
}

/// A labeled branch or leaf.
pub struct TreeNode {
    /// What the node shows.
    pub face: NodeFace,
    /// Whether the branch starts open.
    pub open: bool,
    /// The nodes below it.
    pub children: Vec<TreeNode>,
}

impl TreeNode {
    /// Creates a leaf.
    pub fn new(face: NodeFace, open: bool) -> (node: Self)
        ensures
            node.face == face,
            node.open == open,
            node.children@ == Seq::<TreeNode>::empty(),
    {
        TreeNode { face, open, children: Vec::new() }
    }

    /// Appends label text. `joined` is the whole label, measured anew: a
    /// cluster may reach across the seam.
    pub fn label(self, label: &str, joined: Text) -> (node: Self)
        requires
            content(joined@) == content(self.face@.label) + label@,
        ensures
            node.face@ == (FaceView { label: joined@, ..self.face@ }),
            node.open == self.open,
            node.children@ == self.children@,
    {
        let mut node: TreeNode = self;
        node.face.label = joined;
        node
    }

    /// Sets the dim segment before the label.
    pub fn prefix(self, prefix: Text) -> (node: Self)
        ensures
            node.face@ == (FaceView { prefix: prefix@, ..self.face@ }),
            node.open == self.open,
            node.children@ == self.children@,
    {
        let mut node: TreeNode = self;
        node.face.prefix = prefix;
        node
    }

    /// Sets the trailing action chip.
    pub fn action(self, action: Text) -> (node: Self)
        ensures
            node.face@ == (FaceView { action: action@, ..self.face@ }),
            node.open == self.open,
            node.children@ == self.children@,
    {
        let mut node: TreeNode = self;
        node.face.action = action;
        node
    }

    /// Appends a right-aligned annotation in the theme's muted color.
    pub fn annotation(self, text: Text) -> (node: Self)
        ensures
            node.face@ == (FaceView {
                annotations: self.face@.annotations.push(
                    AnnotationView { text: text@, color: None },
                ),
                ..self.face@
            }),
            node.open == self.open,
            node.children@ == self.children@,
    {
        self.annotate(TreeAnnotation { text, color: None })
    }

    /// Appends a right-aligned annotation.
    pub fn annotate(self, annotation: TreeAnnotation) -> (node: Self)
        ensures
            node.face@ == (FaceView {
                annotations: self.face@.annotations.push(annotation@),
                ..self.face@
            }),
            node.open == self.open,
            node.children@ == self.children@,
    {
        let mut node: TreeNode = self;
        let ghost before = node.face@.annotations;
        let ghost added = annotation@;
        node.face.annotations.push(annotation);
        assert(node.face@.annotations =~= before.push(added));
        node
    }

    /// Appends a child node.
    pub fn node(self, child: TreeNode) -> (node: Self)
        ensures
            node.face == self.face,
            node.open == self.open,
            node.children@ == self.children@.push(child),
    {
        let mut node: TreeNode = self;
        node.children.push(child);
        node
    }
}

/// A path one label longer.
pub open spec fn joined(prefix: Seq<char>, label: Seq<char>) -> Seq<char> {
    if prefix.len() == 0 {
        label
    } else {
        prefix + seq!['/'] + label
    }
}

/// One row of a flattened tree.
pub struct TreeRow {
    /// What the node shows.
    pub face: NodeFace,
    /// Levels below the root.
    pub depth: u16,
    /// The node's key: its own, or its path.
    pub key: String,
    /// Whether the node is a branch.
    pub has_children: bool,
    /// For each level between the root and the node, whether that level goes on
    /// below the row.
    pub gutters: SmolBitmap,
    /// How many such levels there are.
    pub gutter_depth: usize,
    /// Whether the node is the last of its siblings.
    pub last: bool,
}

/// One row of a flattened tree.
pub struct RowView {
    /// What the node shows.
    pub face: FaceView,
    /// Levels below the root.
    pub depth: u16,
    /// The node's key.
    pub key: Seq<char>,
    /// Whether the node is a branch.
    pub has_children: bool,
    /// Which levels go on below the row.
    pub gutters: Seq<bool>,
    /// Whether the node is the last of its siblings.
    pub last: bool,
}

impl View for TreeRow {
    type V = RowView;

    open spec fn view(&self) -> RowView {
        RowView {
            face: self.face@,
            depth: self.depth,
            key: self.key@,
            has_children: self.has_children,
            gutters: flags(set_bits(self.gutters), self.gutter_depth as nat),
            last: self.last,
        }
    }
}

/// The views of rows.
pub open spec fn row_views(rows: Seq<TreeRow>) -> Seq<RowView> {
    rows.map_values(|row: TreeRow| row@)
}

/// The trail below the root level.
pub open spec fn below_root(trail: Seq<bool>) -> Seq<bool> {
    if trail.len() == 0 {
        Seq::empty()
    } else {
        trail.skip(1)
    }
}

/// The row of a node. `trail` says, for each level above it, whether that level
/// goes on below.
pub open spec fn row_for(
    node: TreeNode,
    depth: u16,
    prefix: Seq<char>,
    trail: Seq<bool>,
    last: bool,
) -> RowView {
    RowView {
        face: node.face@,
        depth,
        key: match node.face@.key {
            Some(key) => key,
            None => joined(prefix, content(node.face@.label)),
        },
        has_children: node.children@.len() > 0,
        gutters: below_root(trail),
        last,
    }
}

/// The rows of the nodes from `at` on: each node, and below it the rows of its
/// children where it is open.
pub open spec fn walk(
    nodes: Seq<TreeNode>,
    at: int,
    depth: u16,
    prefix: Seq<char>,
    open: Seq<Slot>,
    trail: Seq<bool>,
) -> Seq<RowView>
    decreases nodes, nodes.len() - at,
{
    if at < 0 || at >= nodes.len() {
        Seq::empty()
    } else {
        let node = nodes[at];
        let last = at + 1 == nodes.len();
        let below = if open.contains(node.face.slot) {
            walk(
                node.children@,
                0,
                sat_add(depth, 1),
                joined(prefix, content(node.face@.label)),
                open,
                trail.push(!last),
            )
        } else {
            Seq::empty()
        };
        seq![row_for(node, depth, prefix, trail, last)] + below + walk(
            nodes,
            at + 1,
            depth,
            prefix,
            open,
            trail,
        )
    }
}

/// The branches from `at` on that start open, each before those below it.
pub open spec fn starts_open(nodes: Seq<TreeNode>, at: int) -> Seq<Slot>
    decreases nodes, nodes.len() - at,
{
    if at < 0 || at >= nodes.len() {
        Seq::empty()
    } else {
        let node = nodes[at];
        (if node.open {
            seq![node.face.slot]
        } else {
            Seq::empty()
        }) + starts_open(node.children@, 0) + starts_open(nodes, at + 1)
    }
}

/// Whether a branch is among the open ones.
fn is_open(open: &Vec<Slot>, slot: Slot) -> (yes: bool)
    ensures
        yes == open@.contains(slot),
{
    let mut at: usize = 0;
    while at < open.len()
        invariant
            at <= open@.len(),
            forall|i: int| 0 <= i < at ==> open@[i] != slot,
        decreases open.len() - at,
    {
        if open[at] == slot {
            assert(open@[at as int] == slot);
            return true;
        }
        at += 1;
    }
    false
}

/// A path one label longer.
fn join_path(prefix: &str, label: &str) -> (path: String)
    ensures
        path@ == joined(prefix@, label@),
{
    if prefix.is_empty() {
        return label.to_owned();
    }
    proof {
        reveal_strlit("/");
    }
    let mut path: String = prefix.to_owned();
    path.append("/");
    path.append(label);
    assert(path@ =~= joined(prefix@, label@));
    path
}

/// Collects the branches that start open.
fn collect_open(nodes: &Vec<TreeNode>, open: &mut Vec<Slot>)
    ensures
        final(open)@ == old(open)@ + starts_open(nodes@, 0),
    decreases nodes,
{
    let ghost before = open@;
    let ghost goal = starts_open(nodes@, 0);
    let mut at: usize = 0;
    while at < nodes.len()
        invariant
            at <= nodes@.len(),
            open@ + starts_open(nodes@, at as int) == before + goal,
        decreases nodes.len() - at,
    {
        let ghost now = open@;
        if nodes[at].open {
            open.push(nodes[at].face.slot);
        }
        collect_open(&nodes[at].children, open);
        at += 1;
        assert(open@ + starts_open(nodes@, at as int) =~= now + starts_open(nodes@, at - 1));
    }
    assert(starts_open(nodes@, at as int) =~= Seq::empty());
    assert(open@ =~= before + goal);
}

/// Flattens nodes into rows. `trail` is left as it was.
fn walk_rows(
    nodes: &Vec<TreeNode>,
    depth: u16,
    prefix: &str,
    open: &Vec<Slot>,
    trail: &mut Vec<bool>,
    rows: &mut Vec<TreeRow>,
)
    ensures
        final(trail)@ == old(trail)@,
        row_views(final(rows)@) == row_views(old(rows)@) + walk(
            nodes@,
            0,
            depth,
            prefix@,
            open@,
            old(trail)@,
        ),
    decreases nodes,
{
    let ghost before = row_views(rows@);
    let ghost path_so_far = trail@;
    let ghost goal = walk(nodes@, 0, depth, prefix@, open@, path_so_far);
    let mut at: usize = 0;
    while at < nodes.len()
        invariant
            at <= nodes@.len(),
            trail@ == path_so_far,
            row_views(rows@) + walk(nodes@, at as int, depth, prefix@, open@, path_so_far) == before
                + goal,
        decreases nodes.len() - at,
    {
        let ghost now = row_views(rows@);
        let ghost rest = walk(nodes@, at as int, depth, prefix@, open@, path_so_far);
        let node: &TreeNode = &nodes[at];
        let label: String = text_content(&node.face.label);
        let path: String = join_path(prefix, label.as_str());
        let key: String = match &node.face.key {
            Some(key) => key.clone(),
            None => path.clone(),
        };
        let last: bool = at == nodes.len() - 1;
        let mut gutters: SmolBitmap = bits_new();
        let gutter_depth: usize = trail.len().saturating_sub(1);
        let mut level: usize = 0;
        while level < gutter_depth
            invariant
                level <= gutter_depth,
                gutter_depth == 0 || gutter_depth + 1 == trail@.len(),
                trail@ == path_so_far,
                forall|above: int|
                    0 <= above < level ==> set_bits(gutters).contains(above as usize)
                        == #[trigger] trail@[above + 1],
            decreases gutter_depth - level,
        {
            bits_set(&mut gutters, level, trail[level + 1]);
            level += 1;
        }
        assert(flags(set_bits(gutters), gutter_depth as nat) =~= below_root(path_so_far));
        let row = TreeRow {
            face: node.face.copy(),
            depth,
            key,
            has_children: node.children.len() > 0,
            gutters,
            gutter_depth,
            last,
        };
        let ghost added = row@;
        assert(added == row_for(*node, depth, prefix@, path_so_far, last));
        rows.push(row);
        assert(row_views(rows@) =~= now.push(added));
        let ghost with_row = row_views(rows@);
        if is_open(open, node.face.slot) {
            trail.push(!last);
            walk_rows(
                &node.children,
                depth.saturating_add(1),
                path.as_str(),
                open,
                trail,
                rows,
            );
            trail.pop();
            assert(trail@ =~= path_so_far);
        }
        at += 1;
        assert(row_views(rows@) + walk(nodes@, at as int, depth, prefix@, open@, path_so_far) =~= now
            + rest);
    }
    assert(walk(nodes@, at as int, depth, prefix@, open@, path_so_far) =~= Seq::empty());
    assert(row_views(rows@) =~= before + goal);
}

/// A virtualized, selectable hierarchy.
pub struct Tree {
    /// Name the tree reports events under.
    pub id: Option<String>,
    /// The nodes.
    pub nodes: Vec<TreeNode>,
    /// Connector family of the guides, for trees that show them.
    pub guides: Option<Border>,
    /// Most rows shown, if that is bounded.
    pub max_rows: Option<u16>,
    /// Selected row.
    pub cursor: usize,
    /// First row of the window.
    pub scroll_top: usize,
    /// Key of the selected row.
    pub selected: Option<String>,
    /// Open branches.
    pub open: Vec<Slot>,
    /// The flattened rows.
    pub rows: Vec<TreeRow>,
    /// Whether the rows are out of date.
    pub rows_dirty: bool,
}

/// A selectable hierarchy.
#[verifier::ext_equal]
pub struct TreeView {
    /// Name the tree reports events under.
    pub id: Option<Seq<char>>,
    /// The nodes.
    pub nodes: Seq<TreeNode>,
    /// Connector family of the guides.
    pub guides: Option<Border>,
    /// Most rows shown.
    pub max_rows: Option<u16>,
    /// Selected row.
    pub cursor: usize,
    /// First row of the window.
    pub scroll_top: usize,
    /// Key of the selected row.
    pub selected: Option<Seq<char>>,
    /// Open branches.
    pub open: Seq<Slot>,
    /// The flattened rows.
    pub rows: Seq<RowView>,
    /// Whether the rows are out of date.
    pub dirty: bool,
}

impl View for Tree {
    type V = TreeView;

    open spec fn view(&self) -> TreeView {
        TreeView {
            id: text_option(self.id),
            nodes: self.nodes@,
            guides: self.guides,
            max_rows: self.max_rows,
            cursor: self.cursor,
            scroll_top: self.scroll_top,
            selected: text_option(self.selected),
            open: self.open@,
            rows: row_views(self.rows@),
            dirty: self.rows_dirty,
        }
    }
}

/// A row number held at the last row.
pub open spec fn held(row: int, count: int) -> int {
    if count <= 0 {
        0
    } else if row < count {
        row
    } else {
        count - 1
    }
}

/// What a tree does with an input.
pub struct TreeStep {
    /// The tree afterwards.
    pub tree: TreeView,
    /// What became of the input.
    pub flow: FlowView,
}

impl TreeView {
    /// Rows that are up to date are those of the nodes.
    pub open spec fn wf(self) -> bool {
        self.dirty || self.rows == walk(self.nodes, 0, 0, Seq::empty(), self.open, Seq::empty())
    }

    /// The tree with the key of its selected row noted.
    pub open spec fn synced(self) -> Self {
        TreeView {
            selected: if self.cursor < self.rows.len() {
                Some(self.rows[self.cursor as int].key)
            } else {
                None
            },
            ..self
        }
    }

    /// The tree with its rows up to date.
    pub open spec fn rebuilt(self) -> Self {
        if !self.dirty {
            self
        } else {
            let rows = walk(self.nodes, 0, 0, Seq::empty(), self.open, Seq::empty());
            (TreeView {
                rows,
                cursor: held(self.cursor as int, rows.len() as int) as usize,
                scroll_top: held(self.scroll_top as int, rows.len() as int) as usize,
                dirty: false,
                ..self
            }).synced()
        }
    }

    /// The tree with its window within the rows.
    pub open spec fn clamped(self, view_rows: int) -> Self {
        let shown = if view_rows > 1 {
            view_rows
        } else {
            1
        };
        let last = if self.rows.len() > shown {
            self.rows.len() - shown
        } else {
            0
        };
        TreeView {
            scroll_top: if self.scroll_top <= last {
                self.scroll_top
            } else {
                last as usize
            },
            ..self
        }
    }

    /// The tree with its window moved to the cursor.
    pub open spec fn chased(self, view_rows: u16) -> Self {
        let shown = if view_rows > 1 {
            view_rows as int
        } else {
            1
        };
        (TreeView {
            scroll_top: if self.cursor < self.scroll_top {
                self.cursor
            } else if self.cursor >= self.scroll_top + shown {
                (self.cursor + 1 - shown) as usize
            } else {
                self.scroll_top
            },
            ..self
        }).clamped(shown)
    }

    /// The tree with its cursor on a row.
    pub open spec fn moved_to(self, row: int, view_rows: u16) -> Self {
        (TreeView {
            cursor: held(row, self.rows.len() as int) as usize,
            ..self
        }).synced().chased(view_rows)
    }

    /// The tree with a branch opened or shut.
    pub open spec fn toggled(self, slot: Slot) -> Self {
        TreeView {
            open: if self.open.contains(slot) {
                self.open.filter(other_slot(slot))
            } else {
                self.open.push(slot)
            },
            dirty: true,
            ..self
        }
    }

    /// The name events carry.
    pub open spec fn name(self) -> Seq<char> {
        match self.id {
            Some(id) => id,
            None => Seq::empty(),
        }
    }

    /// The report that a row was activated.
    pub open spec fn activation(self, row: RowView) -> FlowView {
        FlowView::Event(EventView::TreeActivated { id: self.name(), key: row.key })
    }

    /// The report that a row was opened, shut, or asked to change.
    pub open spec fn toggling(self, row: RowView, expanded: Option<bool>) -> FlowView {
        FlowView::Event(EventView::TreeToggled { id: self.name(), key: row.key, expanded })
    }

    /// What opening or shutting a row's branch does.
    pub open spec fn switched(self, row: RowView, view_rows: u16) -> TreeStep {
        TreeStep {
            tree: self.toggled(row.face.slot).rebuilt().chased(view_rows),
            flow: self.toggling(row, Some(!self.open.contains(row.face.slot))),
        }
    }

    /// The last row before `at` that is one level up from `depth`.
    pub open spec fn parent_before(self, depth: u16, at: int) -> Option<int>
        decreases at,
    {
        if at <= 0 {
            None
        } else if self.rows[at - 1].depth + 1 == depth {
            Some(at - 1)
        } else {
            self.parent_before(depth, at - 1)
        }
    }

    /// What a move to another row does.
    pub open spec fn going(self, row: int, view_rows: u16) -> TreeStep {
        TreeStep { tree: self.moved_to(row, view_rows), flow: FlowView::Consumed }
    }

    /// What a key does to a tree whose rows are up to date.
    pub open spec fn navigated(self, key: Key, view_rows: u16) -> TreeStep {
        let current = self.cursor as int;
        let count = self.rows.len() as int;
        let row = self.rows[current];
        let open = self.open.contains(row.face.slot);
        let page = if view_rows > 1 {
            view_rows as int
        } else {
            1
        };
        let skip = TreeStep { tree: self, flow: FlowView::Skip };
        let up = key is Up || key == Key::Char('k');
        let down = key is Down || key == Key::Char('j');
        let right = key is Right || key == Key::Char('l');
        let left = key is Left || key == Key::Char('h');
        if up {
            if current == 0 {
                skip
            } else {
                self.going(current - 1, view_rows)
            }
        } else if down {
            if current + 1 >= count {
                skip
            } else {
                self.going(current + 1, view_rows)
            }
        } else if key is Home || key == Key::Char('g') {
            self.going(0, view_rows)
        } else if key is End || key == Key::Char('G') {
            self.going(count - 1, view_rows)
        } else if key is PageUp {
            self.going(
                if current >= page {
                    current - page
                } else {
                    0
                },
                view_rows,
            )
        } else if key is PageDown {
            self.going(
                if current + page <= count - 1 {
                    current + page
                } else {
                    count - 1
                },
                view_rows,
            )
        } else if right && row.has_children && !open {
            self.switched(row, view_rows)
        } else if right && row.has_children {
            if current + 1 < count && self.rows[current + 1].depth == row.depth + 1 {
                self.going(current + 1, view_rows)
            } else {
                skip
            }
        } else if right {
            TreeStep { tree: self, flow: self.activation(row) }
        } else if left && row.has_children && open {
            self.switched(row, view_rows)
        } else if left {
            match self.parent_before(row.depth, current) {
                Some(parent) => self.going(parent, view_rows),
                None => skip,
            }
        } else if key is Enter {
            TreeStep { tree: self, flow: self.activation(row) }
        } else if key is Space && row.has_children {
            self.switched(row, view_rows)
        } else if key is Space {
            TreeStep { tree: self, flow: self.toggling(row, None) }
        } else {
            skip
        }
    }

    /// What a key does.
    pub open spec fn keyed(self, key: Key, view_rows: u16) -> TreeStep {
        let ready = self.rebuilt();
        if ready.rows.len() == 0 {
            TreeStep { tree: ready, flow: FlowView::Skip }
        } else {
            (TreeView {
                cursor: held(ready.cursor as int, ready.rows.len() as int) as usize,
                ..ready
            }).navigated(key, view_rows)
        }
    }

    /// What a click on a row, or on its action chip, does.
    pub open spec fn clicked(self, index: u32, action: bool) -> TreeStep {
        if index >= self.rows.len() {
            TreeStep { tree: self, flow: FlowView::Skip }
        } else {
            let row = self.rows[index as int];
            let here = (TreeView { cursor: index as usize, ..self }).synced();
            if action && content(row.face.action).len() > 0 {
                TreeStep {
                    tree: here,
                    flow: FlowView::Event(
                        EventView::TreeAction {
                            id: self.name(),
                            key: row.key,
                            action: content(row.face.action),
                        },
                    ),
                }
            } else if row.has_children {
                TreeStep {
                    tree: here.toggled(row.face.slot).rebuilt(),
                    flow: self.toggling(row, Some(!self.open.contains(row.face.slot))),
                }
            } else {
                TreeStep { tree: here, flow: self.activation(row) }
            }
        }
    }

    /// What the wheel does.
    pub open spec fn wheeled(self, up: bool, height: u16) -> TreeStep {
        if self.rows.len() == 0 {
            TreeStep { tree: self, flow: FlowView::Skip }
        } else {
            TreeStep {
                tree: (TreeView {
                    scroll_top: if up && self.scroll_top >= 3 {
                        (self.scroll_top - 3) as usize
                    } else if up {
                        0
                    } else if self.scroll_top + 3 <= usize::MAX {
                        (self.scroll_top + 3) as usize
                    } else {
                        usize::MAX
                    },
                    ..self
                }).clamped(height as int),
                flow: FlowView::Consumed,
            }
        }
    }

    /// What the pointer does.
    pub open spec fn pointed(self, mouse: Mouse, tag: HitTag, height: u16) -> TreeStep {
        let ready = self.rebuilt();
        let skip = TreeStep { tree: ready, flow: FlowView::Skip };
        match mouse {
            Mouse::WheelUp => ready.wheeled(true, height),
            Mouse::WheelDown => ready.wheeled(false, height),
            Mouse::Click => match tag {
                HitTag::TreeRow(index) => ready.clicked(index, false),
                HitTag::TreeAction(index) => ready.clicked(index, true),
                _ => skip,
            },
            _ => skip,
        }
    }

    /// The first row from `at` on with a key.
    pub open spec fn row_with(self, key: Seq<char>, at: int) -> Option<int>
        decreases self.rows.len() - at,
    {
        if at < 0 || at >= self.rows.len() {
            None
        } else if self.rows[at].key == key {
            Some(at)
        } else {
            self.row_with(key, at + 1)
        }
    }
}

/// Whether a branch is another one.
pub open spec fn other_slot(slot: Slot) -> spec_fn(Slot) -> bool {
    |other: Slot| other != slot
}

impl Tree {
    /// Rows that are up to date are those of the nodes.
    pub open spec fn wf(self) -> bool {
        self@.wf()
    }

    /// Creates an empty tree.
    pub fn new(id: Option<String>, guides: Option<Border>, max_rows: Option<u16>) -> (tree: Self)
        ensures
            tree.wf(),
            tree@ == (TreeView {
                id: text_option(id),
                nodes: Seq::empty(),
                guides,
                max_rows,
                cursor: 0,
                scroll_top: 0,
                selected: None,
                open: Seq::empty(),
                rows: Seq::empty(),
                dirty: true,
            }),
    {
        let tree = Tree {
            id,
            nodes: Vec::new(),
            guides,
            max_rows,
            cursor: 0,
            scroll_top: 0,
            selected: None,
            open: Vec::new(),
            rows: Vec::new(),
            rows_dirty: true,
        };
        assert(tree@.rows =~= Seq::empty());
        tree
    }

    /// Appends a root node.
    pub fn node(&mut self, node: TreeNode)
        ensures
            final(self).wf(),
            final(self)@ == (TreeView {
                nodes: old(self)@.nodes.push(node),
                open: old(self)@.open + starts_open(seq![node], 0),
                dirty: true,
                ..old(self)@
            }),
    {
        let ghost added = node;
        let mut one: Vec<TreeNode> = Vec::new();
        one.push(node);
        assert(one@ =~= seq![added]);
        collect_open(&one, &mut self.open);
        if let Some(back) = one.pop() {
            self.nodes.push(back);
        }
        self.rows_dirty = true;
    }

    /// Returns the selected node key after the tree has been laid out.
    pub fn selected_key(&self) -> (key: Option<&str>)
        ensures
            match key {
                Some(shown) => self@.selected == Some(shown@),
                None => self@.selected is None,
            },
    {
        match &self.selected {
            Some(key) => Some(key.as_str()),
            None => None,
        }
    }

    /// Returns the first flattened row in the current viewport.
    pub fn scroll_top(&self) -> (row: usize)
        ensures
            row == self@.scroll_top,
    {
        self.scroll_top
    }

    /// Brings the rows up to date.
    pub fn rebuild_rows(&mut self)
        requires
            old(self).wf(),
        ensures
            final(self).wf(),
            final(self)@ == old(self)@.rebuilt(),
            !final(self)@.dirty,
    {
        if !self.rows_dirty {
            return;
        }
        let ghost before = self@;
        let mut rows: Vec<TreeRow> = Vec::new();
        let mut trail: Vec<bool> = Vec::new();
        proof {
            reveal_strlit("");
            assert(""@ =~= Seq::<char>::empty());
            assert(row_views(rows@) =~= Seq::empty());
            assert(trail@ =~= Seq::empty());
        }
        walk_rows(&self.nodes, 0, "", &self.open, &mut trail, &mut rows);
        assert(row_views(rows@) =~= walk(
            before.nodes,
            0,
            0,
            Seq::empty(),
            before.open,
            Seq::empty(),
        ));
        self.rows = rows;
        if self.rows.len() == 0 {
            self.cursor = 0;
            self.scroll_top = 0;
        } else {
            if self.cursor >= self.rows.len() {
                self.cursor = self.rows.len() - 1;
            }
            if self.scroll_top >= self.rows.len() {
                self.scroll_top = self.rows.len() - 1;
            }
        }
        self.rows_dirty = false;
        self.sync_selected();
    }

    /// Notes the key of the selected row.
    fn sync_selected(&mut self)
        ensures
            final(self)@ == old(self)@.synced(),
    {
        let ghost before = self@;
        self.selected = if self.cursor < self.rows.len() {
            Some(self.rows[self.cursor].key.clone())
        } else {
            None
        };
        assert(self@ =~= before.synced());
    }

    /// Selects the flattened row with `key`, returning whether it exists.
    ///
    /// This restores application-owned selection after rebuilding a tree with
    /// fresh nodes.
    pub fn select_key(&mut self, key: &str) -> (found: bool)
        requires
            old(self).wf(),
        ensures
            final(self).wf(),
            ({
                let ready = old(self)@.rebuilt();
                match ready.row_with(key@, 0) {
                    Some(row) => found && final(self)@ == (TreeView {
                        cursor: row as usize,
                        ..ready
                    }).synced(),
                    None => !found && final(self)@ == ready,
                }
            }),
    {
        self.rebuild_rows();
        let ghost ready = self@;
        let mut at: usize = 0;
        while at < self.rows.len()
            invariant
                at <= self.rows@.len(),
                self.wf(),
                self@ == ready,
                ready == old(self)@.rebuilt(),
                ready.row_with(key@, 0) == ready.row_with(key@, at as int),
            decreases self.rows.len() - at,
        {
            assert(ready.rows[at as int] == self.rows@[at as int]@);
            if same_text(self.rows[at].key.as_str(), key) {
                self.cursor = at;
                self.sync_selected();
                return true;
            }
            at += 1;
        }
        false
    }

    /// Restores the first flattened row in the viewport.
    ///
    /// Painting clamps the requested offset to the available viewport.
    pub fn set_scroll_top(&mut self, scroll_top: usize)
        requires
            old(self).wf(),
        ensures
            final(self).wf(),
            ({
                let ready = old(self)@.rebuilt();
                final(self)@ == (TreeView {
                    scroll_top: held(scroll_top as int, ready.rows.len() as int) as usize,
                    ..ready
                })
            }),
    {
        self.rebuild_rows();
        self.scroll_top = if self.rows.len() == 0 {
            0
        } else if scroll_top < self.rows.len() {
            scroll_top
        } else {
            self.rows.len() - 1
        };
    }

    /// Keeps the window within the rows.
    pub fn clamp_scroll(&mut self, view_rows: usize)
        requires
            old(self).wf(),
        ensures
            final(self).wf(),
            final(self)@ == old(self)@.clamped(view_rows as int),
    {
        let shown: usize = if view_rows > 1 {
            view_rows
        } else {
            1
        };
        let last: usize = if self.rows.len() > shown {
            self.rows.len() - shown
        } else {
            0
        };
        if self.scroll_top > last {
            self.scroll_top = last;
        }
    }

    /// Moves the window to the cursor.
    fn chase(&mut self, view_rows: u16)
        requires
            old(self).wf(),
        ensures
            final(self).wf(),
            final(self)@ == old(self)@.chased(view_rows),
    {
        let shown: usize = if view_rows > 1 {
            view_rows as usize
        } else {
            1
        };
        if self.cursor < self.scroll_top {
            self.scroll_top = self.cursor;
        } else if self.cursor - self.scroll_top >= shown {
            self.scroll_top = self.cursor - (shown - 1);
        }
        self.clamp_scroll(shown);
    }

    /// Moves the cursor to a row.
    fn move_to(&mut self, row: usize, view_rows: u16)
        requires
            old(self).wf(),
        ensures
            final(self).wf(),
            final(self)@ == old(self)@.moved_to(row as int, view_rows),
    {
        self.cursor = if self.rows.len() == 0 {
            0
        } else if row < self.rows.len() {
            row
        } else {
            self.rows.len() - 1
        };
        self.sync_selected();
        self.chase(view_rows);
    }

    /// Opens or shuts a branch; whether it is open now.
    fn toggle(&mut self, slot: Slot) -> (expanded: bool)
        ensures
            final(self).wf(),
            final(self)@ == old(self)@.toggled(slot),
            expanded == !old(self)@.open.contains(slot),
    {
        let ghost before = self@;
        let was_open: bool = is_open(&self.open, slot);
        if was_open {
            let mut open: Vec<Slot> = Vec::new();
            let mut at: usize = 0;
            proof {
                reveal(Seq::filter);
                assert(before.open.take(0).filter(other_slot(slot)) =~= Seq::empty());
            }
            while at < self.open.len()
                invariant
                    at <= self.open@.len(),
                    self.open@ == before.open,
                    open@ == before.open.take(at as int).filter(other_slot(slot)),
                decreases self.open.len() - at,
            {
                proof {
                    reveal(Seq::filter);
                    assert(before.open.take(at + 1).drop_last() =~= before.open.take(at as int));
                    assert(before.open.take(at + 1).last() == before.open[at as int]);
                }
                if self.open[at] != slot {
                    open.push(self.open[at]);
                }
                at += 1;
            }
            assert(before.open.take(at as int) =~= before.open);
            self.open = open;
        } else {
            self.open.push(slot);
        }
        self.rows_dirty = true;
        !was_open
    }

    /// The name events carry.
    fn name(&self) -> (name: String)
        ensures
            name@ == self@.name(),
    {
        match &self.id {
            Some(id) => id.clone(),
            None => {
                let name: String = "".to_owned();
                proof {
                    reveal_strlit("");
                    assert(name@ =~= Seq::<char>::empty());
                }
                name
            },
        }
    }

    /// Opens or shuts the branch of a row.
    fn switch(&mut self, index: usize, view_rows: u16) -> (flow: Flow)
        requires
            old(self).wf(),
            index < old(self)@.rows.len(),
        ensures
            final(self).wf(),
            ({
                let step = old(self)@.switched(old(self)@.rows[index as int], view_rows);
                final(self)@ == step.tree && flow@ == step.flow
            }),
    {
        let slot: Slot = self.rows[index].face.slot;
        let key: String = self.rows[index].key.clone();
        let id: String = self.name();
        let expanded: bool = self.toggle(slot);
        self.rebuild_rows();
        self.chase(view_rows);
        Flow::Event(UiEvent::TreeToggled { id, key, expanded: Some(expanded) })
    }

    /// Reports that a row was activated.
    fn activated(&self, index: usize) -> (flow: Flow)
        requires
            index < self@.rows.len(),
        ensures
            flow@ == self@.activation(self@.rows[index as int]),
    {
        Flow::Event(
            UiEvent::TreeActivated { id: self.name(), key: self.rows[index].key.clone() },
        )
    }

    /// The last row before the cursor that is one level up.
    fn find_parent(&self, index: usize) -> (parent: Option<usize>)
        requires
            index < self@.rows.len(),
        ensures
            match parent {
                Some(at) => self@.parent_before(
                    self@.rows[index as int].depth,
                    index as int,
                ) == Some(at as int) && at < index,
                None => self@.parent_before(self@.rows[index as int].depth, index as int) is None,
            },
    {
        let depth: u16 = self.rows[index].depth;
        let mut at: usize = index;
        while at > 0
            invariant
                at <= index < self.rows@.len(),
                depth == self@.rows[index as int].depth,
                self@.parent_before(depth, index as int) == self@.parent_before(depth, at as int),
            decreases at,
        {
            assert(self@.rows[at - 1] == self.rows@[at - 1]@);
            if depth > 0 && self.rows[at - 1].depth == depth - 1 {
                return Some(at - 1);
            }
            at -= 1;
        }
        None
    }

    /// Positions the cursor when focus enters.
    pub fn enter(&mut self, forward: bool)
        requires
            old(self).wf(),
        ensures
            final(self).wf(),
            ({
                let ready = old(self)@.rebuilt();
                final(self)@ == (TreeView {
                    cursor: if forward || ready.rows.len() == 0 {
                        0
                    } else {
                        (ready.rows.len() - 1) as usize
                    },
                    ..ready
                }).synced()
            }),
    {
        self.rebuild_rows();
        self.cursor = if forward || self.rows.len() == 0 {
            0
        } else {
            self.rows.len() - 1
        };
        self.sync_selected();
    }

    /// Handles one key.
    pub fn key(&mut self, key: Key, view_rows: u16) -> (flow: Flow)
        requires
            old(self).wf(),
        ensures
            final(self).wf(),
            final(self)@ == old(self)@.keyed(key, view_rows).tree,
            flow@ == old(self)@.keyed(key, view_rows).flow,
    {
        self.rebuild_rows();
        if self.rows.len() == 0 {
            return Flow::Skip;
        }
        if self.cursor >= self.rows.len() {
            self.cursor = self.rows.len() - 1;
        }
        let current: usize = self.cursor;
        let count: usize = self.rows.len();
        let branch: bool = self.rows[current].has_children;
        let depth: u16 = self.rows[current].depth;
        let open: bool = is_open(&self.open, self.rows[current].face.slot);
        let page: usize = if view_rows > 1 {
            view_rows as usize
        } else {
            1
        };
        match key {
            Key::Up | Key::Char('k') => {
                if current == 0 {
                    return Flow::Skip;
                }
                self.move_to(current - 1, view_rows);
                Flow::Consumed
            },
            Key::Down | Key::Char('j') => {
                if current == count - 1 {
                    return Flow::Skip;
                }
                self.move_to(current + 1, view_rows);
                Flow::Consumed
            },
            Key::Home | Key::Char('g') => {
                self.move_to(0, view_rows);
                Flow::Consumed
            },
            Key::End | Key::Char('G') => {
                self.move_to(count - 1, view_rows);
                Flow::Consumed
            },
            Key::PageUp => {
                let row: usize = if current >= page {
                    current - page
                } else {
                    0
                };
                self.move_to(row, view_rows);
                Flow::Consumed
            },
            Key::PageDown => {
                let row: usize = if page <= count - 1 - current {
                    current + page
                } else {
                    count - 1
                };
                self.move_to(row, view_rows);
                Flow::Consumed
            },
            Key::Right | Key::Char('l') => {
                if !branch {
                    self.activated(current)
                } else if !open {
                    self.switch(current, view_rows)
                } else if current < count - 1 && depth < 65535 && self.rows[current + 1].depth
                    == depth + 1 {
                    self.move_to(current + 1, view_rows);
                    Flow::Consumed
                } else {
                    Flow::Skip
                }
            },
            Key::Left | Key::Char('h') => {
                if branch && open {
                    return self.switch(current, view_rows);
                }
                match self.find_parent(current) {
                    Some(parent) => {
                        self.move_to(parent, view_rows);
                        Flow::Consumed
                    },
                    None => Flow::Skip,
                }
            },
            Key::Enter => self.activated(current),
            Key::Space => {
                if branch {
                    self.switch(current, view_rows)
                } else {
                    Flow::Event(
                        UiEvent::TreeToggled {
                            id: self.name(),
                            key: self.rows[current].key.clone(),
                            expanded: None,
                        },
                    )
                }
            },
            _ => Flow::Skip,
        }
    }

    /// Handles a click on a row or on its action chip.
    fn click(&mut self, index: u32, action: bool) -> (flow: Flow)
        requires
            old(self).wf(),
        ensures
            final(self).wf(),
            final(self)@ == old(self)@.clicked(index, action).tree,
            flow@ == old(self)@.clicked(index, action).flow,
    {
        let at: usize = index as usize;
        if at >= self.rows.len() {
            return Flow::Skip;
        }
        let ghost row = self@.rows[at as int];
        self.cursor = at;
        self.sync_selected();
        assert(self@.rows[at as int] == row);
        if action && !self.rows[at].face.action.is_empty() {
            return Flow::Event(
                UiEvent::TreeAction {
                    id: self.name(),
                    key: self.rows[at].key.clone(),
                    action: text_content(&self.rows[at].face.action),
                },
            );
        }
        if self.rows[at].has_children {
            let slot: Slot = self.rows[at].face.slot;
            let key: String = self.rows[at].key.clone();
            let id: String = self.name();
            let expanded: bool = self.toggle(slot);
            self.rebuild_rows();
            Flow::Event(UiEvent::TreeToggled { id, key, expanded: Some(expanded) })
        } else {
            self.activated(at)
        }
    }

    /// Turns the wheel.
    fn wheel(&mut self, up: bool, height: u16) -> (flow: Flow)
        requires
            old(self).wf(),
        ensures
            final(self).wf(),
            final(self)@ == old(self)@.wheeled(up, height).tree,
            flow@ == old(self)@.wheeled(up, height).flow,
    {
        if self.rows.len() == 0 {
            return Flow::Skip;
        }
        self.scroll_top = if up {
            self.scroll_top.saturating_sub(3)
        } else {
            self.scroll_top.saturating_add(3)
        };
        self.clamp_scroll(height as usize);
        Flow::Consumed
    }

    /// Handles a pointer action in an area `height` rows high.
    pub fn mouse(&mut self, mouse: Mouse, tag: HitTag, height: u16) -> (flow: Flow)
        requires
            old(self).wf(),
        ensures
            final(self).wf(),
            final(self)@ == old(self)@.pointed(mouse, tag, height).tree,
            flow@ == old(self)@.pointed(mouse, tag, height).flow,
    {
        self.rebuild_rows();
        match mouse {
            Mouse::WheelUp => self.wheel(true, height),
            Mouse::WheelDown => self.wheel(false, height),
            Mouse::Click => match tag {
                HitTag::TreeRow(index) => self.click(index, false),
                HitTag::TreeAction(index) => self.click(index, true),
                _ => Flow::Skip,
            },
            _ => Flow::Skip,
        }
    }

    /// Rows of the tree, within its bound.
    pub fn height(&mut self) -> (rows: u16)
        requires
            old(self).wf(),
        ensures
            final(self).wf(),
            final(self)@ == old(self)@.rebuilt(),
            rows == ({
                let natural = cell_count(final(self)@.rows.len() as int);
                match final(self)@.max_rows {
                    Some(cap) if cap < natural => cap,
                    _ => natural,
                }
            }),
    {
        self.rebuild_rows();
        let natural: u16 = if self.rows.len() <= 65535 {
            self.rows.len() as u16
        } else {
            65535
        };
        match self.max_rows {
            Some(cap) if cap < natural => cap,
            _ => natural,
        }
    }
}

/// Opening a branch and shutting it again leaves the open branches as they
/// were, and so the rows.
pub proof fn toggling_twice_restores_the_rows(tree: TreeView, slot: Slot)
    requires
        !tree.dirty,
        tree.wf(),
        !tree.open.contains(slot),
    ensures
        tree.toggled(slot).toggled(slot).open == tree.open,
        tree.toggled(slot).toggled(slot).rebuilt().rows == tree.rows,
{
    reveal(Seq::filter);
    let grown = tree.open.push(slot);
    assert(grown.drop_last() =~= tree.open);
    assert(grown.last() == slot);
    assert(grown[tree.open.len() as int] == slot);
    nothing_to_drop(tree.open, slot);
}

/// Dropping an absent entry changes nothing.
proof fn nothing_to_drop(open: Seq<Slot>, slot: Slot)
    requires
        !open.contains(slot),
    ensures
        open.filter(other_slot(slot)) == open,
    decreases open.len(),
{
    reveal(Seq::filter);
    if open.len() > 0 {
        let front = open.drop_last();
        assert(!front.contains(slot)) by {
            if front.contains(slot) {
                let i = choose|i: int| 0 <= i < front.len() && front[i] == slot;
                assert(open[i] == slot);
            }
        }
        nothing_to_drop(front, slot);
        assert(open[open.len() - 1] == open.last());
        assert(front.push(open.last()) =~= open);
    } else {
        assert(open.filter(other_slot(slot)) =~= open);
    }
}

/// After a move the selected row is inside the window.
pub proof fn the_window_follows_the_cursor(tree: TreeView, row: int, view_rows: u16)
    requires
        tree.rows.len() > 0,
        0 <= row,
        tree.rows.len() < usize::MAX,
    ensures
        ({
            let moved = tree.moved_to(row, view_rows);
            let shown = if view_rows > 1 {
                view_rows as int
            } else {
                1
            };
            moved.scroll_top <= moved.cursor < moved.scroll_top + shown && moved.cursor
                < tree.rows.len()
        }),
{
}

/// Whether two rows are those of a node and of one of its children, `child`,
/// and the node is open.
pub open spec fn shows_child(
    above: RowView,
    row: RowView,
    open: Seq<Slot>,
    parent: TreeNode,
    child: int,
    prefix: Seq<char>,
    trail: Seq<bool>,
    last: bool,
) -> bool {
    &&& open.contains(parent.face.slot)
    &&& 0 <= child < parent.children@.len()
    &&& above.depth + 1 == row.depth
    &&& above == row_for(parent, above.depth, prefix, trail, last)
    &&& row == row_for(
        parent.children@[child],
        row.depth,
        joined(prefix, content(parent.face@.label)),
        trail.push(!last),
        child + 1 == parent.children@.len(),
    )
}

/// Whether `row` shows a child of the open node that `above` shows.
pub open spec fn child_row(above: RowView, row: RowView, open: Seq<Slot>) -> bool {
    exists|
        parent: TreeNode,
        child: int,
        prefix: Seq<char>,
        trail: Seq<bool>,
        last: bool,
    | #[trigger]
        shows_child(above, row, open, parent, child, prefix, trail, last)
}

/// Whether `row` shows the first child of the open node that `above` shows.
pub open spec fn first_child_row(above: RowView, row: RowView, open: Seq<Slot>) -> bool {
    exists|parent: TreeNode, prefix: Seq<char>, trail: Seq<bool>, last: bool| #[trigger]
        shows_child(above, row, open, parent, 0, prefix, trail, last)
}

/// Whether each row is at most one level below the one before it.
pub open spec fn rows_step_down(rows: Seq<RowView>) -> bool {
    forall|k: int, next: int|
        0 <= k && next == k + 1 && next < rows.len() ==> (#[trigger] rows[next]).depth <= (
        #[trigger] rows[k]).depth + 1
}

/// The rows below a node: those of its children where it is open.
pub open spec fn rows_below(
    node: TreeNode,
    last: bool,
    depth: u16,
    prefix: Seq<char>,
    open: Seq<Slot>,
    trail: Seq<bool>,
) -> Seq<RowView> {
    if open.contains(node.face.slot) {
        walk(
            node.children@,
            0,
            sat_add(depth, 1),
            joined(prefix, content(node.face@.label)),
            open,
            trail.push(!last),
        )
    } else {
        Seq::empty()
    }
}

/// The rows of a walk: the first node's, those below it, and the rest.
proof fn walk_parts(
    nodes: Seq<TreeNode>,
    at: int,
    depth: u16,
    prefix: Seq<char>,
    open: Seq<Slot>,
    trail: Seq<bool>,
)
    requires
        0 <= at < nodes.len(),
    ensures
        ({
            let last = at + 1 == nodes.len();
            let rows = walk(nodes, at, depth, prefix, open, trail);
            let below = rows_below(nodes[at], last, depth, prefix, open, trail);
            let rest = walk(nodes, at + 1, depth, prefix, open, trail);
            &&& rows.len() == 1 + below.len() + rest.len()
            &&& rows[0] == row_for(nodes[at], depth, prefix, trail, last)
            &&& forall|k: int|
                0 <= k < below.len() ==> #[trigger] below[k] == rows[k + 1]
            &&& forall|k: int|
                1 <= k < 1 + below.len() ==> #[trigger] rows[k] == below[k - 1]
            &&& forall|k: int|
                0 <= k < rest.len() ==> #[trigger] rest[k] == rows[k + 1 + below.len()]
            &&& forall|k: int|
                1 + below.len() <= k < rows.len() ==> #[trigger] rows[k] == rest[k - 1
                    - below.len()]
        }),
{
}

proof fn walk_steps_down(
    nodes: Seq<TreeNode>,
    at: int,
    depth: u16,
    prefix: Seq<char>,
    open: Seq<Slot>,
    trail: Seq<bool>,
)
    requires
        0 <= at <= nodes.len(),
    ensures
        ({
            let rows = walk(nodes, at, depth, prefix, open, trail);
            &&& rows.len() == 0 <==> at == nodes.len()
            &&& rows.len() > 0 ==> rows[0].depth == depth
            &&& forall|k: int| 0 <= k < rows.len() ==> depth <= (#[trigger] rows[k]).depth
            &&& rows_step_down(rows)
        }),
    decreases nodes, nodes.len() - at,
{
    if at < nodes.len() {
        let last = at + 1 == nodes.len();
        let rows = walk(nodes, at, depth, prefix, open, trail);
        let below = rows_below(nodes[at], last, depth, prefix, open, trail);
        let rest = walk(nodes, at + 1, depth, prefix, open, trail);
        walk_parts(nodes, at, depth, prefix, open, trail);
        walk_steps_down(nodes, at + 1, depth, prefix, open, trail);
        if open.contains(nodes[at].face.slot) {
            walk_steps_down(
                nodes[at].children@,
                0,
                sat_add(depth, 1),
                joined(prefix, content(nodes[at].face@.label)),
                open,
                trail.push(!last),
            );
        }
        let seam = 1 + below.len();
        assert forall|k: int| 0 <= k < rows.len() implies depth <= (#[trigger] rows[k]).depth by {
            if 1 <= k < seam {
                assert(rows[k] == below[k - 1]);
            } else if k >= seam {
                assert(rows[k] == rest[k - seam]);
            }
        }
        assert forall|k: int, next: int|
            0 <= k && next == k + 1 && next < rows.len() implies (#[trigger] rows[next]).depth <= (
        #[trigger] rows[k]).depth + 1 by {
            if next < seam {
                assert(rows[next] == below[next - 1]);
                if k > 0 {
                    assert(rows[k] == below[k - 1]);
                }
            } else {
                assert(rows[next] == rest[next - seam]);
                if next > seam {
                    assert(rows[k] == rest[k - seam]);
                }
            }
        }
    }
}

/// A row at the depth of a walk shows one of its nodes.
proof fn own_row(
    nodes: Seq<TreeNode>,
    at: int,
    depth: u16,
    prefix: Seq<char>,
    open: Seq<Slot>,
    trail: Seq<bool>,
    k: int,
) -> (j: int)
    requires
        0 <= at <= nodes.len(),
        depth < 65_535,
        0 <= k < walk(nodes, at, depth, prefix, open, trail).len(),
        walk(nodes, at, depth, prefix, open, trail)[k].depth == depth,
    ensures
        at <= j < nodes.len(),
        walk(nodes, at, depth, prefix, open, trail)[k] == row_for(
            nodes[j],
            depth,
            prefix,
            trail,
            j + 1 == nodes.len(),
        ),
        k == 0 ==> j == at,
    decreases nodes.len() - at,
{
    let last = at + 1 == nodes.len();
    let rows = walk(nodes, at, depth, prefix, open, trail);
    let below = rows_below(nodes[at], last, depth, prefix, open, trail);
    walk_parts(nodes, at, depth, prefix, open, trail);
    let seam = 1 + below.len();
    if k == 0 {
        at
    } else if k < seam {
        walk_steps_down(
            nodes[at].children@,
            0,
            sat_add(depth, 1),
            joined(prefix, content(nodes[at].face@.label)),
            open,
            trail.push(!last),
        );
        assert(rows[k] == below[k - 1]);
        at
    } else {
        assert(rows[k] == walk(nodes, at + 1, depth, prefix, open, trail)[k - seam]);
        own_row(nodes, at + 1, depth, prefix, open, trail, k - seam)
    }
}

/// A row below the depth of a walk shows a child of the last row before it that
/// is one level up.
proof fn parent_row(
    nodes: Seq<TreeNode>,
    at: int,
    depth: u16,
    prefix: Seq<char>,
    open: Seq<Slot>,
    trail: Seq<bool>,
    k: int,
) -> (p: int)
    requires
        0 <= at <= nodes.len(),
        0 <= k < walk(nodes, at, depth, prefix, open, trail).len(),
        depth < walk(nodes, at, depth, prefix, open, trail)[k].depth < 65_535,
    ensures
        ({
            let rows = walk(nodes, at, depth, prefix, open, trail);
            &&& 0 <= p < k
            &&& child_row(rows[p], rows[k], open)
            &&& forall|q: int| p < q < k ==> rows[k].depth <= (#[trigger] rows[q]).depth
        }),
    decreases nodes, nodes.len() - at,
{
    let last = at + 1 == nodes.len();
    let rows = walk(nodes, at, depth, prefix, open, trail);
    let below = rows_below(nodes[at], last, depth, prefix, open, trail);
    let rest = walk(nodes, at + 1, depth, prefix, open, trail);
    walk_parts(nodes, at, depth, prefix, open, trail);
    let seam = 1 + below.len();
    let path = joined(prefix, content(nodes[at].face@.label));
    if k < seam {
        let deeper = trail.push(!last);
        let children = nodes[at].children@;
        walk_steps_down(children, 0, sat_add(depth, 1), path, open, deeper);
        assert(rows[k] == below[k - 1]);
        if rows[k].depth == depth + 1 {
            let j = own_row(children, 0, sat_add(depth, 1), path, open, deeper, k - 1);
            assert(shows_child(rows[0], rows[k], open, nodes[at], j, prefix, trail, last));
            assert forall|q: int| 0 < q < k implies rows[k].depth <= (#[trigger] rows[q]).depth by {
                assert(rows[q] == below[q - 1]);
            }
            0
        } else {
            let p = parent_row(children, 0, sat_add(depth, 1), path, open, deeper, k - 1);
            assert(rows[p + 1] == below[p]);
            assert forall|q: int| p + 1 < q < k implies rows[k].depth <= (
            #[trigger] rows[q]).depth by {
                assert(rows[q] == below[q - 1]);
            }
            p + 1
        }
    } else {
        assert(rows[k] == rest[k - seam]);
        let p = parent_row(nodes, at + 1, depth, prefix, open, trail, k - seam);
        assert(rows[p + seam] == rest[p]);
        assert forall|q: int| p + seam < q < k implies rows[k].depth <= (
        #[trigger] rows[q]).depth by {
            assert(rows[q] == rest[q - seam]);
        }
        p + seam
    }
}

/// Below an open branch stands its first child; below any other row nothing.
proof fn row_below(
    nodes: Seq<TreeNode>,
    at: int,
    depth: u16,
    prefix: Seq<char>,
    open: Seq<Slot>,
    trail: Seq<bool>,
    k: int,
)
    requires
        0 <= at <= nodes.len(),
        0 <= k < walk(nodes, at, depth, prefix, open, trail).len(),
        walk(nodes, at, depth, prefix, open, trail)[k].depth < 65_535,
    ensures
        ({
            let rows = walk(nodes, at, depth, prefix, open, trail);
            let row = rows[k];
            &&& row.has_children && open.contains(row.face.slot) ==> k + 1 < rows.len()
                && first_child_row(row, rows[k + 1], open)
            &&& !(row.has_children && open.contains(row.face.slot)) ==> k + 1 == rows.len()
                || rows[k + 1].depth <= row.depth
        }),
    decreases nodes, nodes.len() - at,
{
    let last = at + 1 == nodes.len();
    let rows = walk(nodes, at, depth, prefix, open, trail);
    let below = rows_below(nodes[at], last, depth, prefix, open, trail);
    let rest = walk(nodes, at + 1, depth, prefix, open, trail);
    walk_parts(nodes, at, depth, prefix, open, trail);
    walk_steps_down(nodes, at + 1, depth, prefix, open, trail);
    let seam = 1 + below.len();
    let path = joined(prefix, content(nodes[at].face@.label));
    let deeper = trail.push(!last);
    let children = nodes[at].children@;
    walk_steps_down(nodes, at, depth, prefix, open, trail);
    walk_steps_down(children, 0, sat_add(depth, 1), path, open, deeper);
    if seam < rows.len() {
        assert(rows[seam as int] == rest[0]);
    }
    if k == 0 {
        if below.len() > 0 {
            assert(rows[1] == below[0]);
            walk_parts(children, 0, sat_add(depth, 1), path, open, deeper);
            assert(shows_child(rows[0], rows[1], open, nodes[at], 0, prefix, trail, last));
        }
    } else if k < seam {
        assert(rows[k] == below[k - 1]);
        row_below(children, 0, sat_add(depth, 1), path, open, deeper, k - 1);
        if k + 1 < seam {
            assert(rows[k + 1] == below[k]);
        }
    } else {
        assert(rows[k] == rest[k - seam]);
        row_below(nodes, at + 1, depth, prefix, open, trail, k - seam);
        if k + 1 < rows.len() {
            assert(rows[k + 1] == rest[k + 1 - seam]);
        }
    }
}

/// The search for a row one level up finds the nearest one.
proof fn nearest_above(tree: TreeView, depth: u16, at: int)
    requires
        0 <= at <= tree.rows.len(),
    ensures
        match tree.parent_before(depth, at) {
            Some(p) => {
                &&& 0 <= p < at
                &&& tree.rows[p].depth + 1 == depth
                &&& forall|q: int| p < q < at ==> (#[trigger] tree.rows[q]).depth + 1 != depth
            },
            None => forall|q: int| 0 <= q < at ==> (#[trigger] tree.rows[q]).depth + 1 != depth,
        },
    decreases at,
{
    if at > 0 && tree.rows[at - 1].depth + 1 != depth {
        nearest_above(tree, depth, at - 1);
    }
}

/// Between a row and the nearest one before it that is one level up, no row is
/// further up.
proof fn nothing_further_up(rows: Seq<RowView>, depth: u16, from: int, at: int)
    requires
        rows_step_down(rows),
        0 <= from <= at < rows.len(),
        rows[at].depth == depth,
        forall|q: int| from <= q < at ==> (#[trigger] rows[q]).depth + 1 != depth,
    ensures
        forall|q: int| from <= q <= at ==> depth <= (#[trigger] rows[q]).depth,
    decreases at - from,
{
    if from < at {
        nothing_further_up(rows, depth, from + 1, at);
        assert(rows[from + 1].depth <= rows[from].depth + 1);
    }
}

/// Left, on a row that is no open branch, goes to the row of its parent: the
/// row before it that is one level up, with no row in between that is further
/// up than the row left, and that shows the open node with the left row's node
/// among its children. A root stays selected.
pub proof fn left_goes_to_the_parent(tree: TreeView, key: Key, view_rows: u16)
    requires
        tree.wf(),
        !tree.dirty,
        tree.cursor < tree.rows.len(),
        tree.rows.len() < usize::MAX,
        key is Left || key == Key::Char('h'),
        !tree.rows[tree.cursor as int].has_children || !tree.open.contains(
            tree.rows[tree.cursor as int].face.slot,
        ),
    ensures
        ({
            let step = tree.keyed(key, view_rows);
            let from = tree.cursor as int;
            let to = step.tree.cursor as int;
            let row = tree.rows[from];
            &&& step.tree.rows == tree.rows
            &&& step.tree.open == tree.open
            &&& row.depth == 0 ==> step.tree == tree && step.flow == FlowView::Skip
            &&& row.depth > 0 ==> {
                &&& step.flow == FlowView::Consumed
                &&& to < from
                &&& tree.rows[to].depth + 1 == row.depth
                &&& forall|q: int| to < q < from ==> row.depth <= (#[trigger] tree.rows[q]).depth
                &&& row.depth < 65_535 ==> child_row(tree.rows[to], row, tree.open)
                &&& step.tree.selected == Some(tree.rows[to].key)
            }
        }),
{
    let rows = tree.rows;
    let from = tree.cursor as int;
    let row = rows[from];
    walk_steps_down(tree.nodes, 0, 0, Seq::empty(), tree.open, Seq::empty());
    nearest_above(tree, row.depth, from);
    assert(tree.rebuilt() == tree);
    assert(held(tree.cursor as int, rows.len() as int) as usize == tree.cursor);
    assert(TreeView { cursor: tree.cursor, ..tree } == tree);
    match tree.parent_before(row.depth, from) {
        Some(p) => {
            nothing_further_up(rows, row.depth, p + 1, from);
            if row.depth < 65_535 {
                let q = parent_row(
                    tree.nodes,
                    0,
                    0,
                    Seq::empty(),
                    tree.open,
                    Seq::empty(),
                    from,
                );
                assert(rows[p].depth + 1 == row.depth);
                if p < q {
                    assert(rows[q].depth + 1 != row.depth);
                } else if q < p {
                    assert(row.depth <= rows[p].depth);
                }
            }
        },
        None => {
            nothing_further_up(rows, row.depth, 0, from);
            assert(rows[0].depth == 0);
        },
    }
}

/// Right, on an open branch, goes to its first child, which stands right below
/// it; and Left leads back from there, unless the child is an open branch.
pub proof fn right_goes_to_the_first_child(tree: TreeView, view_rows: u16)
    requires
        tree.wf(),
        !tree.dirty,
        tree.cursor < tree.rows.len(),
        tree.rows.len() < usize::MAX,
        tree.rows[tree.cursor as int].depth < 65_535,
        tree.rows[tree.cursor as int].has_children,
        tree.open.contains(tree.rows[tree.cursor as int].face.slot),
    ensures
        ({
            let step = tree.keyed(Key::Right, view_rows);
            let from = tree.cursor as int;
            let child = tree.rows[from + 1];
            &&& step.flow == FlowView::Consumed
            &&& step.tree.rows == tree.rows
            &&& step.tree.open == tree.open
            &&& step.tree.cursor == from + 1
            &&& first_child_row(tree.rows[from], child, tree.open)
            &&& !child.has_children || !tree.open.contains(child.face.slot) ==> step.tree.keyed(
                Key::Left,
                view_rows,
            ).tree.cursor == tree.cursor
        }),
{
    let from = tree.cursor as int;
    row_below(tree.nodes, 0, 0, Seq::empty(), tree.open, Seq::empty(), from);
    assert(tree.rebuilt() == tree);
    assert(held(tree.cursor as int, tree.rows.len() as int) as usize == tree.cursor);
    assert(TreeView { cursor: tree.cursor, ..tree } == tree);
    let step = tree.keyed(Key::Right, view_rows);
    let child = tree.rows[from + 1];
    if !child.has_children || !tree.open.contains(child.face.slot) {
        left_goes_to_the_parent(step.tree, Key::Left, view_rows);
        let to = step.tree.keyed(Key::Left, view_rows).tree.cursor as int;
        if to < from {
            assert(child.depth <= tree.rows[from].depth);
        }
    }
}

/// Nothing shows below a row that is not an open branch, and what shows below
/// one that is, is its first child.
pub proof fn only_open_branches_show_children(tree: TreeView, k: int)
    requires
        tree.wf(),
        !tree.dirty,
        0 <= k < tree.rows.len(),
        tree.rows[k].depth < 65_535,
    ensures
        ({
            let row = tree.rows[k];
            &&& row.has_children && tree.open.contains(row.face.slot) ==> k + 1 < tree.rows.len()
                && first_child_row(row, tree.rows[k + 1], tree.open)
            &&& !(row.has_children && tree.open.contains(row.face.slot)) ==> k + 1
                == tree.rows.len() || tree.rows[k + 1].depth <= row.depth
        }),
{
    row_below(tree.nodes, 0, 0, Seq::empty(), tree.open, Seq::empty(), k);
}

/// Whether `rows` hold the rows of all of the nodes.
pub open spec fn all_shown(
    rows: Seq<RowView>,
    nodes: Seq<TreeNode>,
    depth: u16,
    prefix: Seq<char>,
    trail: Seq<bool>,
) -> bool {
    forall|j: int|
        0 <= j < nodes.len() ==> rows.contains(
            row_for(#[trigger] nodes[j], depth, prefix, trail, j + 1 == nodes.len()),
        )
}

proof fn walks_show_all(
    nodes: Seq<TreeNode>,
    at: int,
    depth: u16,
    prefix: Seq<char>,
    open: Seq<Slot>,
    trail: Seq<bool>,
    j: int,
) -> (k: int)
    requires
        0 <= at <= j < nodes.len(),
    ensures
        0 <= k < walk(nodes, at, depth, prefix, open, trail).len(),
        walk(nodes, at, depth, prefix, open, trail)[k] == row_for(
            nodes[j],
            depth,
            prefix,
            trail,
            j + 1 == nodes.len(),
        ),
    decreases nodes.len() - at,
{
    walk_parts(nodes, at, depth, prefix, open, trail);
    if j == at {
        0
    } else {
        let last = at + 1 == nodes.len();
        let below = rows_below(nodes[at], last, depth, prefix, open, trail);
        let k = walks_show_all(nodes, at + 1, depth, prefix, open, trail, j);
        assert(walk(nodes, at + 1, depth, prefix, open, trail)[k] == walk(
            nodes,
            at,
            depth,
            prefix,
            open,
            trail,
        )[k + 1 + below.len()]);
        k + 1 + below.len()
    }
}

#[verifier::rlimit(40)]
proof fn open_rows_show_children(
    nodes: Seq<TreeNode>,
    at: int,
    depth: u16,
    prefix: Seq<char>,
    open: Seq<Slot>,
    trail: Seq<bool>,
    k: int,
) -> (shown: (TreeNode, Seq<char>, Seq<bool>, bool))
    requires
        0 <= at <= nodes.len(),
        0 <= k < walk(nodes, at, depth, prefix, open, trail).len(),
    ensures
        ({
            let rows = walk(nodes, at, depth, prefix, open, trail);
            let (node, path, above, last) = shown;
            &&& rows[k] == row_for(node, rows[k].depth, path, above, last)
            &&& open.contains(node.face.slot) ==> all_shown(
                rows.skip(k + 1),
                node.children@,
                sat_add(rows[k].depth, 1),
                joined(path, content(node.face@.label)),
                above.push(!last),
            )
        }),
    decreases nodes, nodes.len() - at,
{
    let last = at + 1 == nodes.len();
    let rows = walk(nodes, at, depth, prefix, open, trail);
    let below = rows_below(nodes[at], last, depth, prefix, open, trail);
    let rest = walk(nodes, at + 1, depth, prefix, open, trail);
    walk_parts(nodes, at, depth, prefix, open, trail);
    let seam = 1 + below.len();
    let path = joined(prefix, content(nodes[at].face@.label));
    let deeper = trail.push(!last);
    let children = nodes[at].children@;
    if k == 0 {
        if open.contains(nodes[at].face.slot) {
            assert forall|j: int| 0 <= j < children.len() implies rows.skip(1).contains(
                row_for(
                    #[trigger] children[j],
                    sat_add(depth, 1),
                    path,
                    deeper,
                    j + 1 == children.len(),
                ),
            ) by {
                let q = walks_show_all(children, 0, sat_add(depth, 1), path, open, deeper, j);
                assert(below[q] == rows[q + 1]);
                assert(rows.skip(1)[q] == below[q]);
            }
        }
        (nodes[at], prefix, trail, last)
    } else {
        let inner = k < seam;
        let part = if inner {
            below
        } else {
            rest
        };
        let first = if inner {
            1int
        } else {
            seam as int
        };
        let shown = if inner {
            open_rows_show_children(children, 0, sat_add(depth, 1), path, open, deeper, k - 1)
        } else {
            open_rows_show_children(nodes, at + 1, depth, prefix, open, trail, k - seam)
        };
        assert(rows[k] == part[k - first]);
        let (node, way, above, end) = shown;
        if open.contains(node.face.slot) {
            let all = node.children@;
            let level = sat_add(rows[k].depth, 1);
            let further = joined(way, content(node.face@.label));
            assert forall|j: int| 0 <= j < all.len() implies rows.skip(k + 1).contains(
                row_for(#[trigger] all[j], level, further, above.push(!end), j + 1 == all.len()),
            ) by {
                let row = row_for(all[j], level, further, above.push(!end), j + 1 == all.len());
                let tail = part.skip(k - first + 1);
                assert(tail.contains(row));
                let q = choose|q: int| 0 <= q < tail.len() && tail[q] == row;
                assert(part[q + k - first + 1] == row);
                assert(rows[q + k + 1] == row);
                assert(rows.skip(k + 1)[q] == row);
            }
        }
        shown
    }
}

/// Every root has a row.
pub proof fn every_root_shows(tree: TreeView)
    requires
        tree.wf(),
        !tree.dirty,
    ensures
        all_shown(tree.rows, tree.nodes, 0, Seq::empty(), Seq::empty()),
{
    assert forall|j: int| 0 <= j < tree.nodes.len() implies tree.rows.contains(
        row_for(
            #[trigger] tree.nodes[j],
            0,
            Seq::empty(),
            Seq::empty(),
            j + 1 == tree.nodes.len(),
        ),
    ) by {
        let k = walks_show_all(tree.nodes, 0, 0, Seq::empty(), tree.open, Seq::empty(), j);
        assert(tree.rows[k] == tree.rows[k]);
    }
}

/// Every row shows a node, and below the row of an open one all of its children
/// have theirs.
pub proof fn open_branches_show_every_child(tree: TreeView, k: int) -> (shown: (
    TreeNode,
    Seq<char>,
    Seq<bool>,
    bool,
))
    requires
        tree.wf(),
        !tree.dirty,
        0 <= k < tree.rows.len(),
    ensures
        ({
            let (node, path, above, last) = shown;
            &&& tree.rows[k] == row_for(node, tree.rows[k].depth, path, above, last)
            &&& tree.open.contains(node.face.slot) ==> all_shown(
                tree.rows.skip(k + 1),
                node.children@,
                sat_add(tree.rows[k].depth, 1),
                joined(path, content(node.face@.label)),
                above.push(!last),
            )
        }),
{
    open_rows_show_children(tree.nodes, 0, 0, Seq::empty(), tree.open, Seq::empty(), k)
}

/// Up and Down go one row, PageUp and PageDown a window's height, Home and End
/// all the way; none leaves the rows, and Up and Down pass on what they cannot
/// do.
pub proof fn keys_go_their_distance(tree: TreeView, view_rows: u16)
    requires
        !tree.dirty,
        tree.cursor < tree.rows.len(),
        tree.rows.len() < usize::MAX,
    ensures
        ({
            let at = tree.cursor as int;
            let end = tree.rows.len() - 1;
            let page = if view_rows == 0 {
                1
            } else {
                view_rows as int
            };
            let up = tree.keyed(Key::Up, view_rows);
            let down = tree.keyed(Key::Down, view_rows);
            let page_up = tree.keyed(Key::PageUp, view_rows).tree.cursor as int;
            let page_down = tree.keyed(Key::PageDown, view_rows).tree.cursor as int;
            &&& at > 0 ==> up.tree.cursor == at - 1 && up.flow is Consumed
            &&& at == 0 ==> up.tree == tree && up.flow is Skip
            &&& at < end ==> down.tree.cursor == at + 1 && down.flow is Consumed
            &&& at == end ==> down.tree == tree && down.flow is Skip
            &&& tree.keyed(Key::Home, view_rows).tree.cursor == 0
            &&& tree.keyed(Key::End, view_rows).tree.cursor == end
            &&& at - page_up == page || page_up == 0 && at < page
            &&& page_down - at == page || page_down == end && end - at < page
        }),
{
    assert(tree.rebuilt() == tree);
    assert(held(tree.cursor as int, tree.rows.len() as int) as usize == tree.cursor);
    assert(TreeView { cursor: tree.cursor, ..tree } == tree);
}

} // verus!
