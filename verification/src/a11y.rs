//! The accessibility tree.
//!
//! A list shows a few dozen recycled rows of a corpus that may hold millions. What is published
//! of a row is its place in the corpus and the length of the corpus: a screen reader says "item
//! 4,312 of 1,204,883", and never "item 4 of 60".

use crate::recycler::ViewportLayout;
use crate::row_source::{
    RowBuf, RowFlags, RowView, DIR_BIT, HIDDEN_BIT, SELECTED_BIT, SYMLINK_BIT,
};
use crate::text;
use crate::text::{
    a_number_reads_back, decimal, is_white_space, lossy, trim_end, trim_start, trimmed, value_of,
};
use crate::units::{Micros, MICRO};
use vstd::prelude::*;

verus! {

/// The number of a published node.
pub type NodeId = u64;

/// The window's node.
pub const WINDOW_ID: NodeId = 0;

/// The list container's node.
pub const LIST_ID: NodeId = 1;

/// Row nodes start here, offset by the row's logical index.
pub const ROW_ID_BASE: NodeId = 16;

/// The node of a row.
pub open spec fn row_id(logical_index: int) -> int {
    16 + logical_index
}

/// The node of a row.
pub fn row_node_id(logical_index: u64) -> (result: NodeId)
    requires
        logical_index <= u64::MAX - 16,
    ensures
        result == row_id(logical_index as int),
{
    ROW_ID_BASE + logical_index
}

/// Two rows never share a node, and no row has the window's or the list's.
pub proof fn row_node_ids_do_not_collide(a: int, b: int)
    requires
        0 <= a,
        0 <= b,
        a != b,
    ensures
        row_id(a) != row_id(b),
        row_id(a) != WINDOW_ID,
        row_id(a) != LIST_ID,
{
}

/// What a node is.
#[derive(Clone, Copy, PartialEq, Eq, Debug, Structural)]
pub enum Role {
    /// The window.
    Window,
    /// A list.
    List,
    /// One item of a list.
    ListItem,
}

/// Where a node is on screen.
#[derive(Clone, Copy, PartialEq, Eq, Debug, Structural)]
pub struct Bounds {
    /// Left edge.
    pub x0: Micros,
    /// Top edge.
    pub y0: Micros,
    /// Right edge.
    pub x1: Micros,
    /// Bottom edge.
    pub y1: Micros,
}

/// A node of the tree, in a form that can be inspected.
#[derive(Clone, PartialEq, Debug)]
pub struct SemanticNode {
    /// Its number.
    pub id: NodeId,
    /// What it is.
    pub role: Role,
    /// What a screen reader says.
    pub label: String,
    /// Its place in the corpus, counted from one.
    pub index_in_set: Option<usize>,
    /// The length of the corpus, not the count of recycled rows.
    pub set_size: Option<usize>,
    /// Where it is.
    pub bounds: Option<Bounds>,
    /// Whether it is selected.
    pub selected: bool,
    /// Whether it can have keyboard focus.
    pub focusable: bool,
}

/// The tree of one frame.
#[derive(Clone, Debug)]
pub struct SemanticTree {
    /// Its nodes: the window, the list, and one for each row on screen.
    pub nodes: Vec<SemanticNode>,
}

impl Default for SemanticTree {
    fn default() -> (result: Self)
        ensures
            result.nodes@.len() == 0,
    {
        SemanticTree { nodes: Vec::new() }
    }
}

/// What is said of a row: its name, and what a reader needs to know of it. A row that has not
/// learned its name yet is loading.
pub open spec fn said(name: Seq<char>, flags: RowFlags) -> Seq<char> {
    let plain = trimmed(name);
    if plain.len() == 0 {
        "Loading"@
    } else {
        let kind = if flags.has(DIR_BIT) {
            plain + ", folder"@
        } else {
            plain
        };
        let link = if flags.has(SYMLINK_BIT) {
            kind + ", link"@
        } else {
            kind
        };
        if flags.has(HIDDEN_BIT) {
            link + ", hidden"@
        } else {
            link
        }
    }
}

/// What is said of a row with this name.
pub fn announce(name: &str, flags: RowFlags) -> (result: String)
    ensures
        result@ == said(name@, flags),
{
    let name: &str = text::trim(name);
    if name.unicode_len() == 0 {
        return "Loading".to_owned();
    }
    let mut description: String = name.to_owned();
    if flags.contains(RowFlags::dir()) {
        description.append(", folder");
    }
    if flags.contains(RowFlags::symlink()) {
        description.append(", link");
    }
    if flags.contains(RowFlags::hidden()) {
        description.append(", hidden");
    }
    description
}

/// What is said of a row.
pub fn describe(buf: &RowBuf, row: &RowView) -> (result: String)
    ensures
        result@ == said(lossy(buf.name_of(*row)), row.flags),
{
    let name: String = text::into_owned(buf.name(row));
    announce(name.as_str(), row.flags)
}

/// A row is never announced as nothing, nor as white space alone.
pub proof fn a_row_is_never_nameless(name: Seq<char>, flags: RowFlags)
    ensures
        trimmed(said(name, flags)).len() > 0,
{
    let plain = trimmed(name);
    if plain.len() == 0 {
        reveal_strlit("Loading");
        assert("Loading"@[0] == 'L');
        lemma_a_solid_start_survives("Loading"@);
    } else {
        lemma_trimmed_text_starts_solid(name);
        assert(said(name, flags)[0] == plain[0]);
        lemma_a_solid_start_survives(said(name, flags));
    }
}

proof fn lemma_a_solid_start_survives(text: Seq<char>)
    requires
        text.len() > 0,
        !is_white_space(text[0]),
    ensures
        trimmed(text).len() > 0,
{
    lemma_trim_end_keeps_a_solid_start(text);
}

proof fn lemma_trim_end_keeps_a_solid_start(text: Seq<char>)
    requires
        text.len() > 0,
        !is_white_space(text[0]),
    ensures
        trim_end(text).len() > 0,
        trim_end(text)[0] == text[0],
    decreases text.len(),
{
    if is_white_space(text.last()) {
        assert(text.len() > 1);
        assert(text.drop_last()[0] == text[0]);
        lemma_trim_end_keeps_a_solid_start(text.drop_last());
    }
}

proof fn lemma_trim_start_ends_solid(text: Seq<char>)
    ensures
        trim_start(text).len() > 0 ==> !is_white_space(trim_start(text)[0]),
    decreases text.len(),
{
    if text.len() > 0 && is_white_space(text[0]) {
        lemma_trim_start_ends_solid(text.drop_first());
    }
}

proof fn lemma_trimmed_text_starts_solid(text: Seq<char>)
    requires
        trimmed(text).len() > 0,
    ensures
        !is_white_space(trimmed(text)[0]),
{
    let start = trim_start(text);
    lemma_trim_start_ends_solid(text);
    if start.len() > 0 {
        lemma_trim_end_keeps_a_solid_start(start);
    }
}

/// The window's node.
pub open spec fn is_window(node: SemanticNode) -> bool {
    &&& node.id == WINDOW_ID
    &&& node.role == Role::Window
    &&& node.label@ == "Quicksilver"@
    &&& node.index_in_set is None
    &&& node.set_size is None
    &&& node.bounds is None
    &&& !node.selected
    &&& !node.focusable
}

/// The list's node: it says how long the corpus is.
pub open spec fn is_list(node: SemanticNode, layout: ViewportLayout) -> bool {
    &&& node.id == LIST_ID
    &&& node.role == Role::List
    &&& node.label@ == "Files"@
    &&& node.index_in_set is None
    &&& node.set_size == Some(layout.row_count as usize)
    &&& node.bounds == Some(
        Bounds {
            x0: 0,
            y0: 0,
            x1: (layout.width * 1_000_000) as Micros,
            y1: (layout.height * 1_000_000) as Micros,
        },
    )
    &&& !node.selected
    &&& !node.focusable
}

/// The node of the row at `slot`: its place in the corpus, and how long the corpus is.
pub open spec fn is_row(
    node: SemanticNode,
    buf: RowBuf,
    layout: ViewportLayout,
    slot: int,
) -> bool {
    let row = buf@[slot];
    let logical = layout.visible.first + slot;
    let top = layout.top_of(slot);
    &&& node.id == row_id(logical)
    &&& node.role == Role::ListItem
    &&& node.label@ == said(lossy(buf.name_of(row)), row.flags)
    &&& node.index_in_set == Some((logical + 1) as usize)
    &&& node.index_in_set->0 == logical + 1
    &&& node.set_size == Some(layout.row_count as usize)
    &&& node.bounds == Some(
        Bounds {
            x0: 0,
            y0: top as Micros,
            x1: (layout.width * 1_000_000) as Micros,
            y1: (top + layout.row_height * 1_000_000) as Micros,
        },
    )
    &&& node.selected == row.flags.has(SELECTED_BIT)
    &&& node.focusable
}

/// The tree of a frame: the window, the list, and then every row in order.
pub open spec fn is_tree(nodes: Seq<SemanticNode>, buf: RowBuf, layout: ViewportLayout) -> bool {
    &&& nodes.len() == buf@.len() + 2
    &&& is_window(nodes[0])
    &&& is_list(nodes[1], layout)
    &&& forall|slot: int|
        0 <= slot < buf@.len() ==> is_row(#[trigger] nodes[slot + 2], buf, layout, slot)
}

impl SemanticTree {
    /// Build the tree for one frame. Which row has focus is no part of the tree: it is told with
    /// the update.
    pub fn build(buf: &RowBuf, layout: &ViewportLayout, _focused: Option<u64>) -> (result: Self)
        requires
            layout.sane(),
            layout.row_count <= usize::MAX,
            buf@.len() <= u32::MAX,
            layout.visible.first + buf@.len() < usize::MAX,
            layout.visible.first + buf@.len() <= u64::MAX - 16,
        ensures
            is_tree(result.nodes@, *buf, *layout),
    {
        let mut nodes: Vec<SemanticNode> = Vec::new();
        nodes.push(
            SemanticNode {
                id: WINDOW_ID,
                role: Role::Window,
                label: "Quicksilver".to_owned(),
                index_in_set: None,
                set_size: None,
                bounds: None,
                selected: false,
                focusable: false,
            },
        );
        let width: Micros = layout.width as i128 * MICRO;
        let set_size: usize = layout.row_count as usize;
        nodes.push(
            SemanticNode {
                id: LIST_ID,
                role: Role::List,
                label: "Files".to_owned(),
                index_in_set: None,
                // The length of the corpus, not of the buffer.
                set_size: Some(set_size),
                bounds: Some(
                    Bounds { x0: 0, y0: 0, x1: width, y1: layout.height as i128 * MICRO },
                ),
                selected: false,
                focusable: false,
            },
        );
        let rows: &[RowView] = buf.rows();
        let mut slot: usize = 0;
        while slot < rows.len()
            invariant
                layout.sane(),
                layout.row_count <= usize::MAX,
                buf@.len() <= u32::MAX,
                layout.visible.first + buf@.len() < usize::MAX,
                layout.visible.first + buf@.len() <= u64::MAX - 16,
                rows@ == buf@,
                slot <= rows@.len(),
                width == layout.width * 1_000_000,
                set_size == layout.row_count as usize,
                nodes@.len() == slot + 2,
                is_window(nodes@[0]),
                is_list(nodes@[1], *layout),
                forall|i: int| 0 <= i < slot ==> is_row(#[trigger] nodes@[i + 2], *buf, *layout, i),
            decreases rows@.len() - slot,
        {
            let row: &RowView = &rows[slot];
            let logical: u64 = layout.visible.first + slot as u64;
            let top: Micros = layout.row_top(slot as u32);
            proof {
                layout.lemma_tops_are_bounded(slot as int);
            }
            let ghost before = nodes@;
            nodes.push(
                SemanticNode {
                    id: row_node_id(logical),
                    role: Role::ListItem,
                    label: describe(buf, row),
                    // Counted from one: "item 4,312" is the row at 4,311.
                    index_in_set: Some(logical as usize + 1),
                    set_size: Some(set_size),
                    bounds: Some(
                        Bounds {
                            x0: 0,
                            y0: top,
                            x1: width,
                            y1: top + layout.row_height as i128 * MICRO,
                        },
                    ),
                    selected: row.flags.contains(RowFlags::selected()),
                    focusable: true,
                },
            );
            proof {
                assert(nodes@[0] == before[0]);
                assert(nodes@[1] == before[1]);
                assert forall|i: int| 0 <= i < slot + 1 implies is_row(
                    #[trigger] nodes@[i + 2],
                    *buf,
                    *layout,
                    i,
                ) by {
                    if i < slot {
                        assert(nodes@[i + 2] == before[i + 2]);
                    }
                }
            }
            slot = slot + 1;
        }
        SemanticTree { nodes }
    }
}

/// One thing wrong with a tree.
#[derive(Clone, PartialEq, Debug)]
pub struct AuditFinding {
    /// The node it is wrong with.
    pub node: NodeId,
    /// What is wrong.
    pub problem: String,
}

/// What is said of a list item that tells the wrong length.
pub open spec fn wrong_size(size: nat, expected: nat) -> Seq<char> {
    "set_size is "@ + decimal(size) + ", expected "@ + decimal(expected)
        + " -- this is the recycled-row count leaking into the semantic tree (FR-027)"@
}

/// What is said of a list item whose place is not in the corpus.
pub open spec fn wrong_place(index: nat, expected: nat) -> Seq<char> {
    "index_in_set "@ + decimal(index) + " is outside 1..="@ + decimal(expected)
}

/// What is wrong with the name of a node.
pub open spec fn name_findings(node: SemanticNode) -> Seq<(NodeId, Seq<char>)> {
    if node.focusable && trimmed(node.label@).len() == 0 {
        seq![(node.id, "focusable node has no name (FR-028)"@)]
    } else {
        Seq::empty()
    }
}

/// What is wrong with the length of the corpus that a node tells.
pub open spec fn size_findings(node: SemanticNode, expected: u64) -> Seq<(NodeId, Seq<char>)> {
    match node.set_size {
        Some(size) => if size == expected {
            Seq::empty()
        } else {
            seq![(node.id, wrong_size(size as nat, expected as nat))]
        },
        None => seq![(node.id, "list item has no set_size"@)],
    }
}

/// What is wrong with the place that a node tells.
pub open spec fn place_findings(node: SemanticNode, expected: u64) -> Seq<(NodeId, Seq<char>)> {
    match node.index_in_set {
        Some(index) => if 1 <= index <= expected {
            Seq::empty()
        } else {
            seq![(node.id, wrong_place(index as nat, expected as nat))]
        },
        None => seq![(node.id, "list item has no index_in_set"@)],
    }
}

/// What is wrong with where a node says it is.
pub open spec fn bounds_findings(node: SemanticNode) -> Seq<(NodeId, Seq<char>)> {
    if node.bounds is None {
        seq![(node.id, "list item has no bounds"@)]
    } else {
        Seq::empty()
    }
}

/// What is wrong with a node, in the order it is looked for.
pub open spec fn node_findings(node: SemanticNode, expected: u64) -> Seq<(NodeId, Seq<char>)> {
    if node.role == Role::ListItem {
        name_findings(node) + size_findings(node, expected) + place_findings(node, expected)
            + bounds_findings(node)
    } else {
        name_findings(node)
    }
}

/// What is wrong with the first `count` nodes.
pub open spec fn nodes_findings(nodes: Seq<SemanticNode>, count: int, expected: u64) -> Seq<
    (NodeId, Seq<char>),
>
    decreases count,
{
    if count <= 0 {
        Seq::empty()
    } else {
        nodes_findings(nodes, count - 1, expected) + node_findings(nodes[count - 1], expected)
    }
}

/// Whether a list was published.
pub open spec fn has_list(nodes: Seq<SemanticNode>) -> bool {
    exists|i: int| 0 <= i < nodes.len() && (#[trigger] nodes[i]).role == Role::List
}

/// What is wrong with a tree: with each node in turn, and then with the whole.
pub open spec fn tree_findings(nodes: Seq<SemanticNode>, expected: u64) -> Seq<
    (NodeId, Seq<char>),
> {
    let each = nodes_findings(nodes, nodes.len() as int, expected);
    if has_list(nodes) {
        each
    } else {
        each.push((LIST_ID, "no List node was published"@))
    }
}

/// Findings as plain values.
pub open spec fn as_pairs(findings: Seq<AuditFinding>) -> Seq<(NodeId, Seq<char>)> {
    findings.map_values(|f: AuditFinding| (f.node, f.problem@))
}

/// Add a finding.
fn report(findings: &mut Vec<AuditFinding>, node: NodeId, problem: String)
    ensures
        as_pairs(final(findings)@) == as_pairs(old(findings)@).push((node, problem@)),
{
    findings.push(AuditFinding { node, problem });
    assert(as_pairs(findings@) =~= as_pairs(old(findings)@).push((node, problem@)));
}

/// What is said of a list item that tells the wrong length.
fn write_wrong_size(size: u64, expected: u64) -> (result: String)
    ensures
        result@ == wrong_size(size as nat, expected as nat),
{
    let mut out: String = "set_size is ".to_owned();
    out.append(text::write_decimal(size).as_str());
    out.append(", expected ");
    out.append(text::write_decimal(expected).as_str());
    out.append(" -- this is the recycled-row count leaking into the semantic tree (FR-027)");
    out
}

/// What is said of a list item whose place is not in the corpus.
fn write_wrong_place(index: u64, expected: u64) -> (result: String)
    ensures
        result@ == wrong_place(index as nat, expected as nat),
{
    let mut out: String = "index_in_set ".to_owned();
    out.append(text::write_decimal(index).as_str());
    out.append(" is outside 1..=");
    out.append(text::write_decimal(expected).as_str());
    out
}

/// Add what is wrong with a node.
fn audit_node(node: &SemanticNode, expected: u64, findings: &mut Vec<AuditFinding>)
    ensures
        as_pairs(final(findings)@) == as_pairs(old(findings)@) + node_findings(*node, expected),
{
    let ghost start = as_pairs(findings@);
    if node.focusable && text::trim(node.label.as_str()).unicode_len() == 0 {
        report(findings, node.id, "focusable node has no name (FR-028)".to_owned());
    }
    assert(as_pairs(findings@) =~= start + name_findings(*node));
    if node.role != Role::ListItem {
        return;
    }
    match node.set_size {
        Some(size) => {
            if size as u64 != expected {
                report(findings, node.id, write_wrong_size(size as u64, expected));
            }
        },
        None => {
            report(findings, node.id, "list item has no set_size".to_owned());
        },
    }
    assert(as_pairs(findings@) =~= start + name_findings(*node) + size_findings(*node, expected));
    match node.index_in_set {
        Some(index) => {
            if !(index >= 1 && index as u64 <= expected) {
                report(findings, node.id, write_wrong_place(index as u64, expected));
            }
        },
        None => {
            report(findings, node.id, "list item has no index_in_set".to_owned());
        },
    }
    assert(as_pairs(findings@) =~= start + name_findings(*node) + size_findings(*node, expected)
        + place_findings(*node, expected));
    if node.bounds.is_none() {
        report(findings, node.id, "list item has no bounds".to_owned());
    }
    assert(as_pairs(findings@) =~= start + node_findings(*node, expected));
}

/// Check a tree. What comes back names the node and the rule, which tells what to fix.
pub fn audit(tree: &SemanticTree, expected_set_size: u64) -> (result: Vec<AuditFinding>)
    ensures
        as_pairs(result@) == tree_findings(tree.nodes@, expected_set_size),
{
    let mut findings: Vec<AuditFinding> = Vec::new();
    let mut listed: bool = false;
    let mut i: usize = 0;
    assert(as_pairs(findings@) =~= Seq::empty());
    while i < tree.nodes.len()
        invariant
            i <= tree.nodes@.len(),
            as_pairs(findings@) == nodes_findings(tree.nodes@, i as int, expected_set_size),
            listed <==> exists|j: int| 0 <= j < i && (#[trigger] tree.nodes@[j]).role == Role::List,
        decreases tree.nodes@.len() - i,
    {
        audit_node(&tree.nodes[i], expected_set_size, &mut findings);
        if tree.nodes[i].role == Role::List {
            listed = true;
            assert(tree.nodes@[i as int].role == Role::List);
        }
        i = i + 1;
    }
    if !listed {
        report(&mut findings, LIST_ID, "no List node was published".to_owned());
    }
    findings
}

/// Nothing is wrong with the tree of a frame: every row is named, and every row tells its place
/// in the corpus and the length of the corpus.
pub proof fn a_built_tree_passes_the_audit(
    nodes: Seq<SemanticNode>,
    buf: RowBuf,
    layout: ViewportLayout,
)
    requires
        is_tree(nodes, buf, layout),
        layout.row_count <= usize::MAX,
        layout.visible.first + buf@.len() <= layout.row_count,
    ensures
        tree_findings(nodes, layout.row_count) == Seq::<(NodeId, Seq<char>)>::empty(),
{
    assert(nodes[1].role == Role::List);
    lemma_nothing_wrong(nodes, nodes.len() as int, buf, layout);
}

proof fn lemma_nothing_wrong(
    nodes: Seq<SemanticNode>,
    count: int,
    buf: RowBuf,
    layout: ViewportLayout,
)
    requires
        is_tree(nodes, buf, layout),
        layout.row_count <= usize::MAX,
        layout.visible.first + buf@.len() <= layout.row_count,
        count <= nodes.len(),
    ensures
        nodes_findings(nodes, count, layout.row_count) == Seq::<(NodeId, Seq<char>)>::empty(),
    decreases count,
{
    if count > 0 {
        lemma_nothing_wrong(nodes, count - 1, buf, layout);
        let node = nodes[count - 1];
        if count >= 3 {
            let slot = count - 3;
            assert(is_row(nodes[slot + 2], buf, layout, slot));
            a_row_is_never_nameless(lossy(buf.name_of(buf@[slot])), buf@[slot].flags);
        }
        assert(node_findings(node, layout.row_count) =~= Seq::empty());
    }
}

/// Publishing the count of recycled rows in place of the length of the corpus is always found.
pub proof fn the_audit_catches_a_leaked_row_count(
    nodes: Seq<SemanticNode>,
    i: int,
    size: usize,
    expected: u64,
)
    requires
        0 <= i < nodes.len(),
        nodes[i].role == Role::ListItem,
        nodes[i].set_size == Some(size),
        size != expected,
    ensures
        tree_findings(nodes, expected).contains(
            (nodes[i].id, wrong_size(size as nat, expected as nat)),
        ),
{
    let each = nodes_findings(nodes, nodes.len() as int, expected);
    let finding = (nodes[i].id, wrong_size(size as nat, expected as nat));
    lemma_found(nodes, nodes.len() as int, i, size, expected);
    let k = choose|k: int| 0 <= k < each.len() && each[k] == finding;
    assert(tree_findings(nodes, expected)[k] == finding);
}

proof fn lemma_found(nodes: Seq<SemanticNode>, count: int, i: int, size: usize, expected: u64)
    requires
        0 <= i < count <= nodes.len(),
        nodes[i].role == Role::ListItem,
        nodes[i].set_size == Some(size),
        size != expected,
    ensures
        nodes_findings(nodes, count, expected).contains(
            (nodes[i].id, wrong_size(size as nat, expected as nat)),
        ),
    decreases count,
{
    let finding = (nodes[i].id, wrong_size(size as nat, expected as nat));
    let below = nodes_findings(nodes, count - 1, expected);
    let now = nodes_findings(nodes, count, expected);
    if i == count - 1 {
        let node = nodes[i];
        let k = below.len() + name_findings(node).len();
        assert(size_findings(node, expected)[0] == finding);
        assert(now[k as int] == finding);
    } else {
        lemma_found(nodes, count - 1, i, size, expected);
        let k = choose|k: int| 0 <= k < below.len() && below[k] == finding;
        assert(now[k] == finding);
    }
}

/// `accesskit::Node`: one accessible object, as the platform takes it.
#[verifier::external_type_specification]
#[verifier::external_body]
pub struct ExNode(accesskit::Node);

/// `accesskit::Rect`: a rectangle in the platform's own numbers.
#[verifier::external_type_specification]
#[verifier::external_body]
pub struct ExRect(accesskit::Rect);

/// `accesskit::TreeUpdate`: the nodes of a tree, its root, and which of them has focus.
#[verifier::external_type_specification]
#[verifier::external_body]
pub struct ExTreeUpdate(accesskit::TreeUpdate);

/// Which property of an accessible object is stated.
pub enum Property {
    /// What it is.
    Role,
    /// What a screen reader says.
    Label,
    /// Its place in the corpus.
    PositionInSet,
    /// The length of the corpus.
    SizeOfSet,
    /// Where it is.
    Bounds,
    /// Whether it is selected.
    Selected,
    /// The nodes inside it.
    Children,
}

/// What is stated of an accessible object.
pub enum Statement {
    /// A role.
    Role(Role),
    /// Text.
    Text(Seq<char>),
    /// A count.
    Count(usize),
    /// A rectangle.
    Place(accesskit::Rect),
    /// A truth value.
    Truth(bool),
    /// Nodes.
    Nodes(Seq<NodeId>),
}

/// A role and nothing else.
pub open spec fn nothing_but(role: Role) -> Map<Property, Statement> {
    Map::empty().insert(Property::Role, Statement::Role(role))
}

/// The properties that an accessible object states.
pub uninterp spec fn properties_of(node: accesskit::Node) -> Map<Property, Statement>;

/// The nodes of an update, each with the properties that it states.
pub uninterp spec fn nodes_of(update: accesskit::TreeUpdate) -> Seq<
    (NodeId, Map<Property, Statement>),
>;

/// The root of an update and the node that has focus.
pub uninterp spec fn anchors_of(update: accesskit::TreeUpdate) -> (NodeId, NodeId);

/// Calls `accesskit::Node::new`, which makes an object that states its role and nothing else.
#[verifier::external_body]
fn new_node(role: Role) -> (result: accesskit::Node)
    ensures
        properties_of(result) == nothing_but(role),
{
    accesskit::Node::new(
        match role {
            Role::Window => accesskit::Role::Window,
            Role::List => accesskit::Role::List,
            Role::ListItem => accesskit::Role::ListItem,
        },
    )
}

/// Calls `accesskit::Node::set_label`, which sets that property and leaves the others.
#[verifier::external_body]
fn set_label(node: &mut accesskit::Node, label: &str)
    ensures
        properties_of(*final(node)) == properties_of(*old(node)).insert(
            Property::Label,
            Statement::Text(label@),
        ),
{
    node.set_label(label);
}

/// Calls `accesskit::Node::set_position_in_set`, which sets that property and leaves the others.
#[verifier::external_body]
fn set_position_in_set(node: &mut accesskit::Node, index: usize)
    ensures
        properties_of(*final(node)) == properties_of(*old(node)).insert(
            Property::PositionInSet,
            Statement::Count(index),
        ),
{
    node.set_position_in_set(index);
}

/// Calls `accesskit::Node::set_size_of_set`, which sets that property and leaves the others.
#[verifier::external_body]
fn set_size_of_set(node: &mut accesskit::Node, size: usize)
    ensures
        properties_of(*final(node)) == properties_of(*old(node)).insert(
            Property::SizeOfSet,
            Statement::Count(size),
        ),
{
    node.set_size_of_set(size);
}

/// Calls `accesskit::Node::set_bounds`, which sets that property and leaves the others.
#[verifier::external_body]
fn set_bounds(node: &mut accesskit::Node, rect: accesskit::Rect)
    ensures
        properties_of(*final(node)) == properties_of(*old(node)).insert(
            Property::Bounds,
            Statement::Place(rect),
        ),
{
    node.set_bounds(rect);
}

/// Calls `accesskit::Node::set_selected`, which sets that property and leaves the others.
#[verifier::external_body]
fn set_selected(node: &mut accesskit::Node, selected: bool)
    ensures
        properties_of(*final(node)) == properties_of(*old(node)).insert(
            Property::Selected,
            Statement::Truth(selected),
        ),
{
    node.set_selected(selected);
}

/// Calls `accesskit::Node::set_children`, which sets that property and leaves the others.
#[verifier::external_body]
fn set_children(node: &mut accesskit::Node, children: &Vec<NodeId>)
    ensures
        properties_of(*final(node)) == properties_of(*old(node)).insert(
            Property::Children,
            Statement::Nodes(children@),
        ),
{
    let ids: Vec<accesskit::NodeId> = children.iter().map(|id| accesskit::NodeId(*id)).collect();
    node.set_children(ids);
}

/// Makes an `accesskit::TreeUpdate` for the root tree with `accesskit::TreeInfo::new`, which
/// keeps the root it is given: no nodes yet, and a node that has focus.
#[verifier::external_body]
fn new_update(root: NodeId, focus: NodeId) -> (result: accesskit::TreeUpdate)
    ensures
        nodes_of(result).len() == 0,
        anchors_of(result) == (root, focus),
{
    accesskit::TreeUpdate {
        nodes: Vec::new(),
        tree: Some(accesskit::TreeInfo::new(accesskit::NodeId(root))),
        tree_id: accesskit::TreeId::ROOT,
        focus: accesskit::NodeId(focus),
    }
}

/// Puts a node at the end of the `nodes` of an `accesskit::TreeUpdate`.
#[verifier::external_body]
fn publish(update: &mut accesskit::TreeUpdate, id: NodeId, node: accesskit::Node)
    ensures
        nodes_of(*final(update)) == nodes_of(*old(update)).push((id, properties_of(node))),
        anchors_of(*final(update)) == anchors_of(*old(update)),
{
    update.nodes.push((accesskit::NodeId(id), node));
}

/// The nodes of the first `count` rows.
pub open spec fn row_ids(nodes: Seq<SemanticNode>, count: int) -> Seq<NodeId>
    decreases count,
{
    if count <= 0 {
        Seq::empty()
    } else if nodes[count - 1].role == Role::ListItem {
        row_ids(nodes, count - 1).push(nodes[count - 1].id)
    } else {
        row_ids(nodes, count - 1)
    }
}

/// `properties` with one more, if there is something to state.
pub open spec fn stating(
    properties: Map<Property, Statement>,
    property: Property,
    statement: Option<Statement>,
) -> Map<Property, Statement> {
    match statement {
        Some(statement) => properties.insert(property, statement),
        None => properties,
    }
}

/// What is published of a node, given where it lands on the platform: its role, and whatever
/// else it has; the window holds the list, and the list holds the rows.
pub open spec fn published(
    node: SemanticNode,
    place: Option<accesskit::Rect>,
    rows: Seq<NodeId>,
) -> Map<Property, Statement> {
    let label = stating(
        nothing_but(node.role),
        Property::Label,
        if node.label@.len() == 0 {
            None
        } else {
            Some(Statement::Text(node.label@))
        },
    );
    let index = stating(
        label,
        Property::PositionInSet,
        match node.index_in_set {
            Some(index) => Some(Statement::Count(index)),
            None => None,
        },
    );
    let size = stating(
        index,
        Property::SizeOfSet,
        match node.set_size {
            Some(size) => Some(Statement::Count(size)),
            None => None,
        },
    );
    let bounds = stating(
        size,
        Property::Bounds,
        match place {
            Some(rect) => Some(Statement::Place(rect)),
            None => None,
        },
    );
    let selected = stating(
        bounds,
        Property::Selected,
        if node.selected {
            Some(Statement::Truth(true))
        } else {
            None
        },
    );
    stating(
        selected,
        Property::Children,
        if node.id == WINDOW_ID {
            Some(Statement::Nodes(seq![LIST_ID]))
        } else if node.id == LIST_ID {
            Some(Statement::Nodes(rows))
        } else {
            None
        },
    )
}

/// Whether `properties` is what is published of a node whose bounds `place` converts.
pub open spec fn is_published<F: Fn(Bounds) -> accesskit::Rect>(
    node: SemanticNode,
    rows: Seq<NodeId>,
    place: F,
    properties: Map<Property, Statement>,
) -> bool {
    match node.bounds {
        None => properties == published(node, None, rows),
        Some(bounds) => exists|rect: accesskit::Rect| #[trigger]
            call_ensures(place, (bounds,), rect) && properties == published(
                node,
                Some(rect),
                rows,
            ),
    }
}

/// Whether a node is in the tree.
pub open spec fn is_node(nodes: Seq<SemanticNode>, id: NodeId) -> bool {
    exists|i: int| 0 <= i < nodes.len() && (#[trigger] nodes[i]).id == id
}

/// Which node has focus: the row that was asked for if it is in the tree, and else the list,
/// because the platform refuses an update whose focus names a node that does not exist.
pub open spec fn focus_target(nodes: Seq<SemanticNode>, focused: Option<u64>) -> int {
    match focused {
        Some(row) => if row_id(row as int) <= u64::MAX && is_node(
            nodes,
            row_id(row as int) as NodeId,
        ) {
            row_id(row as int)
        } else {
            LIST_ID as int
        },
        None => LIST_ID as int,
    }
}

impl SemanticTree {
    /// The nodes of the rows, in order.
    fn rows(&self) -> (result: Vec<NodeId>)
        ensures
            result@ == row_ids(self.nodes@, self.nodes@.len() as int),
    {
        let mut out: Vec<NodeId> = Vec::new();
        let mut i: usize = 0;
        while i < self.nodes.len()
            invariant
                i <= self.nodes@.len(),
                out@ == row_ids(self.nodes@, i as int),
            decreases self.nodes@.len() - i,
        {
            if self.nodes[i].role == Role::ListItem {
                out.push(self.nodes[i].id);
            }
            i = i + 1;
        }
        out
    }

    /// Whether a node is in the tree.
    fn has_node(&self, id: NodeId) -> (result: bool)
        ensures
            result == is_node(self.nodes@, id),
    {
        let mut i: usize = 0;
        while i < self.nodes.len()
            invariant
                i <= self.nodes@.len(),
                forall|j: int| 0 <= j < i ==> (#[trigger] self.nodes@[j]).id != id,
            decreases self.nodes@.len() - i,
        {
            if self.nodes[i].id == id {
                assert(self.nodes@[i as int].id == id);
                return true;
            }
            i = i + 1;
        }
        false
    }

    /// Which node has focus when `focused` is the focused row.
    pub fn focus(&self, focused: Option<u64>) -> (result: NodeId)
        ensures
            result == focus_target(self.nodes@, focused),
    {
        match focused {
            Some(row) => {
                if row <= u64::MAX - ROW_ID_BASE && self.has_node(row_node_id(row)) {
                    row_node_id(row)
                } else {
                    LIST_ID
                }
            },
            None => LIST_ID,
        }
    }

    /// Convert to an update for the platform. `place` converts a rectangle to the platform's own
    /// numbers.
    pub fn to_update<F: Fn(Bounds) -> accesskit::Rect>(&self, focused: Option<u64>, place: F) -> (result:
        accesskit::TreeUpdate)
        requires
            forall|bounds: Bounds| #[trigger] call_requires(place, (bounds,)),
        ensures
            anchors_of(result).0 == WINDOW_ID,
            anchors_of(result).1 == focus_target(self.nodes@, focused),
            nodes_of(result).len() == self.nodes@.len(),
            forall|i: int|
                0 <= i < self.nodes@.len() ==> (#[trigger] nodes_of(result)[i]).0
                    == self.nodes@[i].id && is_published(
                    self.nodes@[i],
                    row_ids(self.nodes@, self.nodes@.len() as int),
                    place,
                    nodes_of(result)[i].1,
                ),
    {
        let rows: Vec<NodeId> = self.rows();
        let mut window: Vec<NodeId> = Vec::new();
        window.push(LIST_ID);
        assert(window@ =~= seq![LIST_ID]);
        let mut update: accesskit::TreeUpdate = new_update(WINDOW_ID, self.focus(focused));
        let mut i: usize = 0;
        while i < self.nodes.len()
            invariant
                forall|bounds: Bounds| #[trigger] call_requires(place, (bounds,)),
                rows@ == row_ids(self.nodes@, self.nodes@.len() as int),
                window@ == seq![LIST_ID],
                i <= self.nodes@.len(),
                anchors_of(update).0 == WINDOW_ID,
                anchors_of(update).1 == focus_target(self.nodes@, focused),
                nodes_of(update).len() == i,
                forall|j: int|
                    0 <= j < i ==> (#[trigger] nodes_of(update)[j]).0 == self.nodes@[j].id
                        && is_published(
                        self.nodes@[j],
                        rows@,
                        place,
                        nodes_of(update)[j].1,
                    ),
            decreases self.nodes@.len() - i,
        {
            let node: &SemanticNode = &self.nodes[i];
            let mut built: accesskit::Node = new_node(node.role);
            let ghost mut landed: Option<accesskit::Rect> = None;
            if node.label.as_str().unicode_len() != 0 {
                set_label(&mut built, node.label.as_str());
            }
            if let Some(index) = node.index_in_set {
                set_position_in_set(&mut built, index);
            }
            if let Some(size) = node.set_size {
                set_size_of_set(&mut built, size);
            }
            if let Some(bounds) = node.bounds {
                let rect: accesskit::Rect = place(bounds);
                proof {
                    landed = Some(rect);
                    assert(call_ensures(place, (bounds,), rect));
                }
                set_bounds(&mut built, rect);
            }
            if node.selected {
                set_selected(&mut built, true);
            }
            if node.id == WINDOW_ID {
                set_children(&mut built, &window);
            } else if node.id == LIST_ID {
                set_children(&mut built, &rows);
            }
            assert(properties_of(built) == published(*node, landed, rows@));
            assert(is_published(*node, rows@, place, properties_of(built)));
            let ghost before = nodes_of(update);
            publish(&mut update, node.id, built);
            proof {
                assert forall|j: int| 0 <= j < i + 1 implies (#[trigger] nodes_of(update)[j]).0
                    == self.nodes@[j].id && is_published(
                    self.nodes@[j],
                    rows@,
                    place,
                    nodes_of(update)[j].1,
                ) by {
                    if j < i {
                        assert(nodes_of(update)[j] == before[j]);
                    }
                }
            }
            i = i + 1;
        }
        update
    }
}

/// Focus always names a node of the tree, whatever row is asked for: a dangling focus takes the
/// whole update with it.
pub proof fn focus_is_never_dangling(
    nodes: Seq<SemanticNode>,
    buf: RowBuf,
    layout: ViewportLayout,
    focused: Option<u64>,
)
    requires
        is_tree(nodes, buf, layout),
    ensures
        is_node(nodes, focus_target(nodes, focused) as NodeId),
{
    assert(nodes[1].id == LIST_ID);
}

/// A focused row that is on screen has the focus itself.
pub proof fn a_visible_row_takes_focus(
    nodes: Seq<SemanticNode>,
    buf: RowBuf,
    layout: ViewportLayout,
    slot: int,
)
    requires
        is_tree(nodes, buf, layout),
        0 <= slot < buf@.len(),
        layout.visible.first + slot <= u64::MAX - 16,
    ensures
        focus_target(nodes, Some((layout.visible.first + slot) as u64)) == row_id(
            layout.visible.first + slot,
        ),
{
    assert(is_row(nodes[slot + 2], buf, layout, slot));
    assert(nodes[slot + 2].id == row_id(layout.visible.first + slot));
}

/// What comes after a row's name when it is announced: whether it is a folder, whether it is a link
/// and whether it is hidden, each exactly if it is, in this order.
pub open spec fn remarks(dir: bool, link: bool, hidden: bool) -> Seq<char> {
    (if dir {
        ", folder"@
    } else {
        Seq::empty()
    }) + (if link {
        ", link"@
    } else {
        Seq::empty()
    }) + (if hidden {
        ", hidden"@
    } else {
        Seq::empty()
    })
}

/// Every row on screen is announced as itself: its node's label begins with its own name, without the
/// white space around it, and goes on with what its own attributes say, and with nothing else. A
/// row that has no name yet is announced as loading.
pub proof fn every_row_is_announced_as_itself(
    nodes: Seq<SemanticNode>,
    buf: RowBuf,
    layout: ViewportLayout,
    slot: int,
)
    requires
        is_tree(nodes, buf, layout),
        0 <= slot < buf@.len(),
    ensures
        ({
            let row = buf@[slot];
            let name = trimmed(lossy(buf.name_of(row)));
            let label = nodes[slot + 2].label@;
            &&& name.len() == 0 ==> label == "Loading"@
            &&& name.len() > 0 ==> {
                &&& label.len() >= name.len()
                &&& label.take(name.len() as int) == name
                &&& label.skip(name.len() as int) == remarks(
                    row.flags.has(DIR_BIT),
                    row.flags.has(SYMLINK_BIT),
                    row.flags.has(HIDDEN_BIT),
                )
            }
        }),
{
    let row = buf@[slot];
    let name = trimmed(lossy(buf.name_of(row)));
    assert(is_row(nodes[slot + 2], buf, layout, slot));
    let label = nodes[slot + 2].label@;
    if name.len() > 0 {
        assert(label.take(name.len() as int) =~= name);
        assert(label.skip(name.len() as int) =~= remarks(
            row.flags.has(DIR_BIT),
            row.flags.has(SYMLINK_BIT),
            row.flags.has(HIDDEN_BIT),
        ));
    }
}

/// How a row is announced is its own affair: whatever the other rows of two frames are, a row of the
/// same name and attributes is announced alike in both; and where the attributes are the same and
/// the names are not, it is announced differently.
pub proof fn a_label_is_that_of_its_own_row(
    x: Seq<SemanticNode>,
    a: RowBuf,
    a_layout: ViewportLayout,
    i: int,
    y: Seq<SemanticNode>,
    b: RowBuf,
    b_layout: ViewportLayout,
    j: int,
)
    requires
        is_tree(x, a, a_layout),
        is_tree(y, b, b_layout),
        0 <= i < a@.len(),
        0 <= j < b@.len(),
        a@[i].flags == b@[j].flags,
    ensures
        lossy(a.name_of(a@[i])) == lossy(b.name_of(b@[j])) ==> x[i + 2].label@ == y[j + 2].label@,
        trimmed(lossy(a.name_of(a@[i]))) != trimmed(lossy(b.name_of(b@[j]))) && trimmed(
            lossy(a.name_of(a@[i])),
        ).len() > 0 && trimmed(lossy(b.name_of(b@[j]))).len() > 0 ==> x[i + 2].label@ != y[j
            + 2].label@,
{
    every_row_is_announced_as_itself(x, a, a_layout, i);
    every_row_is_announced_as_itself(y, b, b_layout, j);
    assert(is_row(x[i + 2], a, a_layout, i));
    assert(is_row(y[j + 2], b, b_layout, j));
    let p = trimmed(lossy(a.name_of(a@[i])));
    let q = trimmed(lossy(b.name_of(b@[j])));
    if p != q && p.len() > 0 && q.len() > 0 && x[i + 2].label@ == y[j + 2].label@ {
        let label = x[i + 2].label@;
        assert(p.len() == q.len());
    }
}

/// Every row on screen tells its own place: the node it is, its place in the corpus counted from one,
/// the length of the corpus, and the whole width of the list at its own top edge, exactly as tall as
/// a row. It is selected exactly if its data says so.
pub proof fn every_row_tells_its_own_place(
    nodes: Seq<SemanticNode>,
    buf: RowBuf,
    layout: ViewportLayout,
    slot: int,
)
    requires
        is_tree(nodes, buf, layout),
        layout.sane(),
        layout.row_count <= usize::MAX,
        buf@.len() <= u32::MAX,
        layout.visible.first + buf@.len() < usize::MAX,
        0 <= slot < buf@.len(),
    ensures
        ({
            let node = nodes[slot + 2];
            let logical = layout.visible.first + slot;
            &&& nodes.len() == buf@.len() + 2
            &&& node.role == Role::ListItem
            &&& node.id == 16 + logical
            &&& node.index_in_set matches Some(index) && index == logical + 1
            &&& node.set_size matches Some(size) && size == layout.row_count
            &&& node.bounds matches Some(b) && {
                &&& b.x0 == 0
                &&& b.x1 == layout.width * 1_000_000
                &&& b.y0 == layout.top_of(slot)
                &&& b.y1 - b.y0 == layout.row_height * 1_000_000
            }
            &&& node.selected == buf@[slot].flags.has(SELECTED_BIT)
            &&& node.focusable
        }),
{
    assert(is_row(nodes[slot + 2], buf, layout, slot));
    layout.lemma_tops_are_bounded(slot);
}

/// The window comes first and the list second, and neither is a row: the list is as large as its
/// surface and says how long the corpus is, and neither can have focus or be selected.
pub proof fn the_tree_starts_with_its_containers(
    nodes: Seq<SemanticNode>,
    buf: RowBuf,
    layout: ViewportLayout,
)
    requires
        is_tree(nodes, buf, layout),
        layout.row_count <= usize::MAX,
    ensures
        nodes[0].role == Role::Window,
        nodes[0].id == 0,
        nodes[0].label@.len() > 0,
        nodes[0].set_size is None,
        !nodes[0].focusable && !nodes[0].selected,
        nodes[1].role == Role::List,
        nodes[1].id == 1,
        nodes[1].label@.len() > 0,
        nodes[1].set_size matches Some(size) && size == layout.row_count,
        nodes[1].index_in_set is None,
        nodes[1].bounds matches Some(b) && b.x0 == 0 && b.y0 == 0 && b.x1 == layout.width * 1_000_000
            && b.y1 == layout.height * 1_000_000,
        !nodes[1].focusable && !nodes[1].selected,
{
    reveal_strlit("Quicksilver");
    reveal_strlit("Files");
}

/// Whether nothing is wrong with a node: one that can have focus says something, and an item of a list
/// tells where it is, how long the corpus is and a place in it.
pub open spec fn is_sound(node: SemanticNode, expected: u64) -> bool {
    &&& node.focusable ==> trimmed(node.label@).len() > 0
    &&& node.role == Role::ListItem ==> {
        &&& node.set_size matches Some(size) && size == expected
        &&& node.index_in_set matches Some(index) && 1 <= index <= expected
        &&& node.bounds is Some
    }
}

proof fn lemma_findings_are_of_unsound_nodes(nodes: Seq<SemanticNode>, count: int, expected: u64)
    requires
        count <= nodes.len(),
    ensures
        nodes_findings(nodes, count, expected).len() == 0 <==> forall|i: int|
            0 <= i < count ==> is_sound(#[trigger] nodes[i], expected),
        forall|f: int|
            0 <= f < nodes_findings(nodes, count, expected).len() ==> exists|i: int|
                0 <= i < count && !is_sound(#[trigger] nodes[i], expected) && (
                #[trigger] nodes_findings(nodes, count, expected)[f]).0 == nodes[i].id,
    decreases count,
{
    if count > 0 {
        lemma_findings_are_of_unsound_nodes(nodes, count - 1, expected);
        let below = nodes_findings(nodes, count - 1, expected);
        let node = nodes[count - 1];
        let part = node_findings(node, expected);
        let now = nodes_findings(nodes, count, expected);
        assert(part.len() == 0 <==> is_sound(node, expected));
        assert forall|f: int| 0 <= f < now.len() implies exists|i: int|
            0 <= i < count && !is_sound(#[trigger] nodes[i], expected) && (#[trigger] now[f]).0
                == nodes[i].id by {
            if f < below.len() {
                assert(now[f] == below[f]);
                let i = choose|i: int|
                    0 <= i < count - 1 && !is_sound(#[trigger] nodes[i], expected) && below[f].0
                        == nodes[i].id;
                assert(!is_sound(nodes[i], expected));
            } else {
                assert(now[f] == part[f - below.len()]);
                assert(part[f - below.len()].0 == node.id);
                assert(!is_sound(nodes[count - 1], expected));
            }
        }
        if now.len() == 0 {
            assert(below.len() == 0 && part.len() == 0);
        }
    }
}

/// The audit finds nothing exactly where there is nothing to find: where a list was published and
/// every node is sound. What it does find names a node that is not, or the list that is missing.
pub proof fn the_audit_finds_what_is_wrong_and_nothing_else(nodes: Seq<SemanticNode>, expected: u64)
    ensures
        tree_findings(nodes, expected).len() == 0 <==> (exists|i: int|
            0 <= i < nodes.len() && (#[trigger] nodes[i]).role == Role::List) && forall|i: int|
            0 <= i < nodes.len() ==> is_sound(#[trigger] nodes[i], expected),
        forall|f: int|
            0 <= f < tree_findings(nodes, expected).len() ==> (#[trigger] tree_findings(
                nodes,
                expected,
            )[f]).0 == LIST_ID && !has_list(nodes) || exists|i: int|
                0 <= i < nodes.len() && !is_sound(#[trigger] nodes[i], expected) && tree_findings(
                    nodes,
                    expected,
                )[f].0 == nodes[i].id,
{
    let n = nodes.len() as int;
    lemma_findings_are_of_unsound_nodes(nodes, n, expected);
    let each = nodes_findings(nodes, n, expected);
    let all = tree_findings(nodes, expected);
    assert forall|f: int| 0 <= f < all.len() implies (#[trigger] all[f]).0 == LIST_ID && !has_list(
        nodes,
    ) || exists|i: int|
        0 <= i < nodes.len() && !is_sound(#[trigger] nodes[i], expected) && all[f].0
            == nodes[i].id by {
        if f < each.len() {
            assert(all[f] == each[f]);
            let i = choose|i: int|
                0 <= i < n && !is_sound(#[trigger] nodes[i], expected) && each[f].0 == nodes[i].id;
            assert(!is_sound(nodes[i], expected));
        }
    }
}

/// What is published of a node is what the node says, and no more: its role always, and every other
/// property exactly if there is something to state. The window holds the list, and the list the
/// rows.
pub proof fn what_is_published_is_what_the_node_says(
    node: SemanticNode,
    place: Option<accesskit::Rect>,
    rows: Seq<NodeId>,
)
    ensures
        ({
            let p = published(node, place, rows);
            &&& p.contains_key(Property::Role) && p[Property::Role] == Statement::Role(node.role)
            &&& p.contains_key(Property::Label) <==> node.label@.len() > 0
            &&& p.contains_key(Property::Label) ==> p[Property::Label] == Statement::Text(node.label@)
            &&& p.contains_key(Property::PositionInSet) <==> node.index_in_set is Some
            &&& node.index_in_set matches Some(index) ==> p[Property::PositionInSet]
                == Statement::Count(index)
            &&& p.contains_key(Property::SizeOfSet) <==> node.set_size is Some
            &&& node.set_size matches Some(size) ==> p[Property::SizeOfSet] == Statement::Count(size)
            &&& p.contains_key(Property::Bounds) <==> place is Some
            &&& place matches Some(rect) ==> p[Property::Bounds] == Statement::Place(rect)
            &&& p.contains_key(Property::Selected) <==> node.selected
            &&& node.selected ==> p[Property::Selected] == Statement::Truth(true)
            &&& p.contains_key(Property::Children) <==> node.id == 0 || node.id == 1
            &&& node.id == 0 ==> p[Property::Children] == Statement::Nodes(seq![1u64])
            &&& node.id == 1 ==> p[Property::Children] == Statement::Nodes(rows)
        }),
{
}

proof fn lemma_rows_of_a_tree(
    nodes: Seq<SemanticNode>,
    buf: RowBuf,
    layout: ViewportLayout,
    count: int,
)
    requires
        is_tree(nodes, buf, layout),
        2 <= count <= nodes.len(),
        layout.visible.first + buf@.len() <= u64::MAX - 16,
    ensures
        row_ids(nodes, count).len() == count - 2,
        forall|slot: int|
            0 <= slot < count - 2 ==> (#[trigger] row_ids(nodes, count)[slot]) == 16
                + layout.visible.first + slot,
    decreases count,
{
    if count == 2 {
        reveal_with_fuel(row_ids, 3);
    } else {
        lemma_rows_of_a_tree(nodes, buf, layout, count - 1);
        assert(is_row(nodes[count - 3 + 2], buf, layout, count - 3));
    }
}

/// The list of a published tree holds every row that is on screen, in order.
pub proof fn the_list_holds_every_row(nodes: Seq<SemanticNode>, buf: RowBuf, layout: ViewportLayout)
    requires
        is_tree(nodes, buf, layout),
        layout.visible.first + buf@.len() <= u64::MAX - 16,
    ensures
        row_ids(nodes, nodes.len() as int) == Seq::new(
            buf@.len(),
            |slot: int| (16 + layout.visible.first + slot) as NodeId,
        ),
{
    lemma_rows_of_a_tree(nodes, buf, layout, nodes.len() as int);
    assert(row_ids(nodes, nodes.len() as int) =~= Seq::new(
        buf@.len(),
        |slot: int| (16 + layout.visible.first + slot) as NodeId,
    ));
}

/// A row that is not on screen never has focus: the list has it then, and where no row is asked for.
pub proof fn only_a_row_on_screen_takes_focus(
    nodes: Seq<SemanticNode>,
    buf: RowBuf,
    layout: ViewportLayout,
    row: u64,
)
    requires
        is_tree(nodes, buf, layout),
        layout.visible.first + buf@.len() <= u64::MAX - 16,
    ensures
        focus_target(nodes, None) == 1,
        !(layout.visible.first <= row < layout.visible.first + buf@.len()) ==> focus_target(
            nodes,
            Some(row),
        ) == 1,
        layout.visible.first <= row < layout.visible.first + buf@.len() ==> focus_target(
            nodes,
            Some(row),
        ) == 16 + row,
{
    if layout.visible.first <= row < layout.visible.first + buf@.len() {
        a_visible_row_takes_focus(nodes, buf, layout, row - layout.visible.first);
    } else if row <= u64::MAX - 16 {
        let id = (16 + row) as NodeId;
        if is_node(nodes, id) {
            let i = choose|i: int| 0 <= i < nodes.len() && (#[trigger] nodes[i]).id == id;
            if i >= 2 {
                assert(is_row(nodes[i - 2 + 2], buf, layout, i - 2));
            }
        }
    }
}

/// What the audit says of a wrong number can be read: first the number that was found, then the one that
/// was expected.
pub proof fn a_finding_says_both_numbers(found: nat, expected: nat)
    ensures
        ({
            let size = wrong_size(found, expected);
            let place = wrong_place(found, expected);
            let one = decimal(found).len() as int;
            let two = decimal(expected).len() as int;
            &&& size.take(12) == "set_size is "@
            &&& size.subrange(12 + one, 23 + one) == ", expected "@
            &&& value_of(size.subrange(12, 12 + one)) == found
            &&& value_of(size.subrange(23 + one, 23 + one + two)) == expected
            &&& place.take(13) == "index_in_set "@
            &&& place.subrange(13 + one, 29 + one) == " is outside 1..="@
            &&& value_of(place.subrange(13, 13 + one)) == found
            &&& value_of(place.skip(29 + one)) == expected
        }),
{
    reveal_strlit("set_size is ");
    reveal_strlit(", expected ");
    reveal_strlit("index_in_set ");
    reveal_strlit(" is outside 1..=");
    a_number_reads_back(found);
    a_number_reads_back(expected);
    let size = wrong_size(found, expected);
    let place = wrong_place(found, expected);
    let one = decimal(found).len() as int;
    let two = decimal(expected).len() as int;
    assert("set_size is "@.len() == 12);
    assert(", expected "@.len() == 11);
    assert("index_in_set "@.len() == 13);
    assert(" is outside 1..="@.len() == 16);
    assert(size.take(12) =~= "set_size is "@);
    assert(size.subrange(12 + one, 23 + one) =~= ", expected "@);
    assert(size.subrange(12, 12 + one) =~= decimal(found));
    assert(size.subrange(23 + one, 23 + one + two) =~= decimal(expected));
    assert(place.take(13) =~= "index_in_set "@);
    assert(place.subrange(13 + one, 29 + one) =~= " is outside 1..="@);
    assert(place.subrange(13, 13 + one) =~= decimal(found));
    assert(place.skip(29 + one) =~= decimal(expected));
}

} // verus!
