use qs_ui::a11y::{
    announce, audit, describe, row_node_id, Bounds, Role, SemanticTree, LIST_ID, WINDOW_ID,
};
use qs_ui::density::Density;
use qs_ui::fenwick::Heights;
use qs_ui::recycler::{Recycler, ViewportLayout};
use qs_ui::row_source::{RowBuf, RowFlags, RowSource, RowView, StubbornSource};
use qs_ui::units::{Micros, MICRO};

fn px(x: f64) -> Micros {
    (x * 1e6).round() as Micros
}

fn place(bounds: Bounds) -> accesskit::Rect {
    accesskit::Rect {
        x0: bounds.x0 as f64 / 1e6,
        y0: bounds.y0 as f64 / 1e6,
        x1: bounds.x1 as f64 / 1e6,
        y1: bounds.y1 as f64 / 1e6,
    }
}

fn million_row_frame() -> (RowBuf, ViewportLayout) {
    let source = StubbornSource { count: 1_204_883 };
    let heights = Heights::Uniform(28);
    let recycler = Recycler::new();
    let layout = recycler.layout(
        &source,
        &heights,
        1920,
        1080,
        MICRO,
        MICRO,
        Density::Default,
        28,
        px(120_736.0),
    );
    let mut buf = RowBuf::new();
    source.rows(layout.visible.as_range(), &mut buf);
    (buf, layout)
}

#[test]
fn the_tree_reports_the_corpus_size_not_the_recycled_row_count() {
    let (buf, layout) = million_row_frame();
    let tree = SemanticTree::build(&buf, &layout, None);

    let items: Vec<_> = tree
        .nodes
        .iter()
        .filter(|n| n.role == Role::ListItem)
        .collect();

    assert!(items.len() < 60, "only the visible rows are published");
    assert!(!items.is_empty());

    for item in &items {
        assert_eq!(
            item.set_size,
            Some(1_204_883),
            "set_size leaked the recycled row count"
        );
    }
    assert!(
        items[0].index_in_set.unwrap() > 4000,
        "index_in_set is a slot index, not a corpus ordinal"
    );
}

#[test]
fn index_in_set_is_one_based_and_contiguous() {
    let (buf, layout) = million_row_frame();
    let tree = SemanticTree::build(&buf, &layout, None);
    let indices: Vec<usize> = tree
        .nodes
        .iter()
        .filter(|n| n.role == Role::ListItem)
        .filter_map(|n| n.index_in_set)
        .collect();

    assert_eq!(indices[0], layout.visible.first as usize + 1);
    for pair in indices.windows(2) {
        assert_eq!(pair[1], pair[0] + 1, "the published indices have a gap");
    }
}

#[test]
fn the_audit_passes_on_a_correct_tree() {
    let (buf, layout) = million_row_frame();
    let tree = SemanticTree::build(&buf, &layout, None);
    let findings = audit(&tree, layout.row_count);
    assert!(findings.is_empty(), "{findings:#?}");
}

#[test]
fn the_audit_catches_the_canonical_virtualized_list_bug() {
    let (buf, layout) = million_row_frame();
    let mut tree = SemanticTree::build(&buf, &layout, None);
    let visible = buf.len();
    for node in &mut tree.nodes {
        if node.role == Role::ListItem {
            node.set_size = Some(visible);
        }
    }

    let findings = audit(&tree, layout.row_count);
    assert!(!findings.is_empty());
    assert!(findings[0].problem.contains("recycled-row count"));
}

#[test]
fn the_audit_catches_a_missing_place_and_a_missing_name() {
    let (buf, layout) = million_row_frame();
    let mut tree = SemanticTree::build(&buf, &layout, None);
    tree.nodes[2].index_in_set = None;
    tree.nodes[3].label = String::from("  ");
    let findings = audit(&tree, layout.row_count);
    assert_eq!(findings.len(), 2);
    assert_eq!(findings[0].node, tree.nodes[2].id);
    assert_eq!(findings[1].node, tree.nodes[3].id);
}

#[test]
fn a_focusable_node_is_never_nameless() {
    let source = StubbornSource { count: 10 };
    let heights = Heights::Uniform(28);
    let mut recycler = Recycler::new();
    let layout = recycler.layout(
        &source,
        &heights,
        800,
        400,
        MICRO,
        MICRO,
        Density::Default,
        28,
        0,
    );
    recycler.fill(&source, &layout);

    let tree = SemanticTree::build(recycler.rows(), &layout, None);
    for node in &tree.nodes {
        if node.focusable {
            assert!(!node.label.trim().is_empty(), "{node:?}");
        }
    }
    assert!(audit(&tree, source.len()).is_empty());
}

#[test]
fn an_accesskit_update_names_a_focus_node_that_exists() {
    let (buf, layout) = million_row_frame();
    let tree = SemanticTree::build(&buf, &layout, None);

    let update = tree.to_update(Some(layout.visible.first), place);
    assert!(update.nodes.iter().any(|(id, _)| *id == update.focus));

    let update = tree.to_update(Some(999_999_999), place);
    assert_eq!(update.focus, accesskit::NodeId(LIST_ID));

    let update = tree.to_update(None, place);
    assert_eq!(update.focus, accesskit::NodeId(LIST_ID));
}

#[test]
fn an_update_says_of_each_node_what_the_tree_says() {
    let (buf, layout) = million_row_frame();
    let mut tree = SemanticTree::build(&buf, &layout, None);
    tree.nodes[4].selected = true;
    let update = tree.to_update(None, place);

    assert_eq!(update.nodes.len(), tree.nodes.len());
    let root = update.tree.as_ref().map(|t| t.root);
    assert_eq!(root, Some(accesskit::NodeId(WINDOW_ID)));

    let (id, window) = &update.nodes[0];
    assert_eq!(*id, accesskit::NodeId(WINDOW_ID));
    assert_eq!(window.role(), accesskit::Role::Window);
    assert_eq!(window.children(), &[accesskit::NodeId(LIST_ID)][..]);

    let (_, list) = &update.nodes[1];
    assert_eq!(list.role(), accesskit::Role::List);
    assert_eq!(list.children().len(), buf.len());
    assert_eq!(list.size_of_set(), tree.nodes[1].set_size);

    for (i, (id, node)) in update.nodes.iter().enumerate().skip(2) {
        let said = &tree.nodes[i];
        assert_eq!(*id, accesskit::NodeId(said.id));
        assert_eq!(node.role(), accesskit::Role::ListItem);
        assert_eq!(node.label(), Some(said.label.as_str()));
        assert_eq!(node.position_in_set(), said.index_in_set);
        assert_eq!(node.size_of_set(), said.set_size);
        assert_eq!(node.bounds(), said.bounds.map(place));
        assert_eq!(node.is_selected().unwrap_or(false), said.selected);
    }
}

#[test]
fn row_node_ids_do_not_collide_with_the_fixed_ids() {
    assert_ne!(row_node_id(0), WINDOW_ID);
    assert_ne!(row_node_id(0), LIST_ID);
    assert_ne!(row_node_id(0), row_node_id(1));
}

#[test]
fn descriptions_carry_the_attributes_a_reader_needs() {
    let mut buf = RowBuf::new();
    buf.push(
        RowView {
            flags: RowFlags::dir() | RowFlags::hidden(),
            ..Default::default()
        },
        b".config",
    );
    assert_eq!(describe(&buf, &buf.rows()[0]), ".config, folder, hidden");
    assert_eq!(announce("a.txt", RowFlags::empty()), "a.txt");
}
