use json_utils::state::JsonUtils;
use json_utils::state::ViewMode;
use json_utils::value::Json;

fn parsed(text: &str) -> JsonUtils {
    let mut st = JsonUtils::new();
    st.load_text(text.to_string());
    st
}

fn tree_parsed(text: &str) -> JsonUtils {
    let mut st = parsed(text);
    st.toggle_view();
    assert!(st.view_mode == ViewMode::Tree);
    st
}

#[test]
fn auto_expand_depths() {
    let st = parsed("{\"a\":{\"b\":{\"c\":1}}}");
    assert_eq!(st.json_tree.len(), 4);
    let depths: Vec<usize> = st.json_tree.iter().map(|n| n.depth).collect();
    assert_eq!(depths, vec![0, 1, 2, 3]);
    let expanded: Vec<bool> = st.json_tree.iter().map(|n| n.expanded).collect();
    assert_eq!(expanded, vec![true, true, false, false]);
}

#[test]
fn six_node_scenario() {
    let st = parsed("{\"x\":[1,2,{\"y\":true}]}");
    assert!(st.is_valid);
    assert_eq!(st.json_tree.len(), 6);
    let keys: Vec<&str> = st.json_tree.iter().map(|n| n.key.as_str()).collect();
    assert_eq!(keys, vec!["", "x", "[0]", "[1]", "[2]", "y"]);
    // With the default expand state, "[2]" at depth 2 starts collapsed, so
    // "y" at depth 3 is hidden until it is toggled open.
    let visible = st.get_visible_nodes();
    assert_eq!(visible, vec![0, 1, 2, 3, 4]);
}

#[test]
fn six_node_depths_and_paths() {
    let st = parsed("{\"x\":[1,2,{\"y\":true}]}");
    let depths: Vec<usize> = st.json_tree.iter().map(|n| n.depth).collect();
    assert_eq!(depths, vec![0, 1, 2, 2, 2, 3]);
    let paths: Vec<&str> = st.json_tree.iter().map(|n| n.path.as_str()).collect();
    assert_eq!(paths, vec!["root", "x", "x[0]", "x[1]", "x[2]", "x[2].y"]);
}

#[test]
fn collapsed_branch_hides_descendants() {
    // Depth-2 containers start collapsed, so everything below them is
    // suppressed until toggled.
    let st = parsed("{\"a\":{\"b\":{\"c\":{\"d\":1}}}}");
    // Nodes: root(0) a(1) b(2) c(3) d(4); b is collapsed.
    let visible = st.get_visible_nodes();
    assert_eq!(visible, vec![0, 1, 2]);
}

#[test]
fn toggle_expand_reveals_children() {
    let mut st = tree_parsed("{\"x\":[1,2,{\"y\":true}]}");
    // Walk the selection down to "[2]" (flat index 4).
    st.move_down();
    st.move_down();
    st.move_down();
    st.move_down();
    assert_eq!(st.selected_node, 4);
    st.toggle_node();
    assert!(st.json_tree[4].expanded);
    let visible = st.get_visible_nodes();
    assert_eq!(visible, vec![0, 1, 2, 3, 4, 5]);
    // Toggling back hides the child again.
    st.toggle_node();
    assert!(!st.json_tree[4].expanded);
    assert_eq!(st.get_visible_nodes(), vec![0, 1, 2, 3, 4]);
}

#[test]
fn toggle_on_scalar_is_a_no_op() {
    let mut st = tree_parsed("{\"x\":[1,2,{\"y\":true}]}");
    st.move_down();
    st.move_down();
    assert_eq!(st.selected_node, 2);
    let before: Vec<bool> = st.json_tree.iter().map(|n| n.expanded).collect();
    st.toggle_node();
    let after: Vec<bool> = st.json_tree.iter().map(|n| n.expanded).collect();
    assert_eq!(before, after);
}

#[test]
fn move_up_at_first_visible_is_a_no_op() {
    let mut st = tree_parsed("{\"x\":[1,2,{\"y\":true}]}");
    assert_eq!(st.selected_node, 0);
    st.move_up();
    assert_eq!(st.selected_node, 0);
}

#[test]
fn move_down_at_last_visible_is_a_no_op() {
    let mut st = tree_parsed("{\"a\":1}");
    // Nodes: root(0), a(1); both visible.
    st.move_down();
    assert_eq!(st.selected_node, 1);
    st.move_down();
    assert_eq!(st.selected_node, 1);
}

#[test]
fn moves_step_to_adjacent_visible_nodes() {
    let mut st = tree_parsed("{\"x\":[1,2,{\"y\":true}]}");
    st.move_down();
    assert_eq!(st.selected_node, 1);
    st.move_down();
    assert_eq!(st.selected_node, 2);
    st.move_up();
    assert_eq!(st.selected_node, 1);
}

#[test]
fn navigation_skips_hidden_nodes() {
    // "b" at depth 2 is collapsed, so moving down from it lands past its
    // whole subtree.
    let mut st = tree_parsed("{\"a\":{\"b\":{\"c\":1}},\"z\":2}");
    // Nodes: root(0) a(1) b(2) c(3) z(4); c hidden.
    assert_eq!(st.get_visible_nodes(), vec![0, 1, 2, 4]);
    st.move_down();
    st.move_down();
    assert_eq!(st.selected_node, 2);
    st.move_down();
    assert_eq!(st.selected_node, 4);
    st.move_up();
    assert_eq!(st.selected_node, 2);
}

#[test]
fn moves_on_empty_tree_do_nothing() {
    let mut st = JsonUtils::new();
    st.toggle_view();
    st.move_up();
    st.move_down();
    st.toggle_node();
    assert_eq!(st.selected_node, 0);
    assert!(st.json_tree.is_empty());
}

#[test]
fn array_keys_reach_double_digits() {
    let st = parsed("[0,1,2,3,4,5,6,7,8,9,10,11]");
    assert_eq!(st.json_tree.len(), 13);
    assert_eq!(st.json_tree[10].key, "[9]");
    assert_eq!(st.json_tree[11].key, "[10]");
    assert_eq!(st.json_tree[12].key, "[11]");
    assert_eq!(st.json_tree[12].path, "[11]");
}

#[test]
fn nested_array_paths() {
    let st = parsed("[[5]]");
    let paths: Vec<&str> = st.json_tree.iter().map(|n| n.path.as_str()).collect();
    assert_eq!(paths, vec!["root", "[0]", "[0][0]"]);
}

#[test]
fn raw_view_scrolls_instead_of_selecting() {
    let mut st = parsed("{\"a\":1}");
    assert!(st.view_mode == ViewMode::Raw);
    st.move_down();
    st.move_down();
    assert_eq!(st.scroll_offset, 2);
    assert_eq!(st.selected_node, 0);
    st.move_up();
    assert_eq!(st.scroll_offset, 1);
    st.move_up();
    st.move_up();
    assert_eq!(st.scroll_offset, 0);
}

#[test]
fn scroll_resets_on_successful_parse() {
    let mut st = parsed("{\"a\":1}");
    st.move_down();
    st.move_down();
    assert_eq!(st.scroll_offset, 2);
    st.load_text("{\"b\":2}".to_string());
    assert_eq!(st.scroll_offset, 0);
}

#[test]
fn selection_resets_on_rebuild() {
    let mut st = tree_parsed("{\"x\":[1,2,{\"y\":true}]}");
    st.move_down();
    st.move_down();
    assert_eq!(st.selected_node, 2);
    st.load_text("{\"a\":{\"b\":1}}".to_string());
    assert_eq!(st.selected_node, 0);
}

#[test]
fn expand_state_does_not_survive_reparse() {
    let mut st = tree_parsed("{\"x\":[1,2,{\"y\":true}]}");
    st.move_down();
    st.move_down();
    st.move_down();
    st.move_down();
    st.toggle_node();
    assert!(st.json_tree[4].expanded);
    // Re-parsing the same text rebuilds the tree from scratch: the node
    // is back at its auto-collapse default and the selection is reset.
    st.load_text("{\"x\":[1,2,{\"y\":true}]}".to_string());
    assert!(!st.json_tree[4].expanded);
    assert_eq!(st.selected_node, 0);
}

#[test]
fn collapsing_the_root_hides_everything_else() {
    let mut st = tree_parsed("{\"x\":[1,2,{\"y\":true}]}");
    assert_eq!(st.selected_node, 0);
    st.toggle_node();
    assert_eq!(st.get_visible_nodes(), vec![0]);
    st.move_down();
    assert_eq!(st.selected_node, 0);
    st.toggle_node();
    assert_eq!(st.get_visible_nodes(), vec![0, 1, 2, 3, 4]);
}

#[test]
fn empty_containers_are_leaves_in_the_tree() {
    let st = parsed("{\"a\":{},\"b\":[]}");
    assert_eq!(st.json_tree.len(), 3);
    let depths: Vec<usize> = st.json_tree.iter().map(|n| n.depth).collect();
    assert_eq!(depths, vec![0, 1, 1]);
    assert_eq!(st.get_visible_nodes(), vec![0, 1, 2]);
}

#[test]
fn root_is_always_visible() {
    for text in ["null", "{}", "[]", "{\"a\":{\"b\":{\"c\":1}}}"] {
        let mut st = JsonUtils::new();
        st.load_text(text.to_string());
        let visible = st.get_visible_nodes();
        assert_eq!(visible.first(), Some(&0), "{}", text);
    }
}

#[test]
fn no_visible_nodes_without_a_document() {
    let st = JsonUtils::new();
    assert!(st.get_visible_nodes().is_empty());
}

#[test]
fn node_values_are_copies_of_the_document() {
    let st = parsed("{\"x\":[1,2,{\"y\":true}]}");
    match &st.json_tree[1].value {
        Json::Arr(elems) => assert_eq!(elems.len(), 3),
        _ => panic!("expected the x node to hold the array"),
    }
    match &st.json_tree[5].value {
        Json::Bool(b) => assert!(*b),
        _ => panic!("expected the y node to hold true"),
    }
}
