use virtual_exec::ops::{IsTruhy, VirInt};
use virtual_exec::mem::Value;
use virtual_exec::repl::{history_down, history_up, on_ctrl_c, ready_to_submit, ExecState, FocusArea, InteractArea};
use virtual_exec::tree_view::TreeViewState;

#[test]
fn toggling_twice_restores_the_folded_set() {
    let mut s = TreeViewState::new();
    assert!(!s.is_collapsed("root.a"));
    s.toggle_collapsed("root.a");
    assert!(s.is_collapsed("root.a"));
    s.toggle_collapsed("root.a");
    assert!(!s.is_collapsed("root.a"));
}

#[test]
fn collapse_and_expand() {
    let mut s = TreeViewState::new();
    s.collapse("x");
    s.collapse("x");
    s.collapse("y");
    assert!(s.is_collapsed("x"));
    assert!(s.is_collapsed("y"));
    s.expand("x");
    assert!(!s.is_collapsed("x"));
    assert!(s.is_collapsed("y"));
    s.expand("nothing");
    assert!(s.is_collapsed("y"));
}

#[test]
fn selection_moves_within_the_rows() {
    let mut s = TreeViewState::new();
    s.select_prev();
    assert_eq!(s.selected_index, 0);
    s.select_next(3);
    s.select_next(3);
    s.select_next(3);
    assert_eq!(s.selected_index, 2);
    s.select_prev();
    assert_eq!(s.selected_index, 1);
    s.select_next(0);
    assert_eq!(s.selected_index, 1);
}

#[test]
fn ensure_visible_scrolls_to_the_selection() {
    let mut s = TreeViewState::new();
    s.selected_index = 10;
    s.ensure_visible(4);
    assert_eq!(s.scroll, 7);
    s.selected_index = 8;
    s.ensure_visible(4);
    assert_eq!(s.scroll, 7);
    s.selected_index = 2;
    s.ensure_visible(4);
    assert_eq!(s.scroll, 2);
}

#[test]
fn history_walk() {
    assert_eq!(history_up(3, 3), 2);
    assert_eq!(history_up(0, 3), 0);
    assert_eq!(history_up(9, 3), 2);
    assert_eq!(history_down(0, 3), 1);
    assert_eq!(history_down(2, 3), 2);
    assert_eq!(history_down(history_up(2, 3), 3), 2);
}

#[test]
fn submit_only_at_the_end_of_valid_input() {
    assert!(ready_to_submit(true, 1, 2, 4, 4));
    assert!(!ready_to_submit(false, 1, 2, 4, 4));
    assert!(!ready_to_submit(true, 0, 2, 4, 4));
    assert!(!ready_to_submit(true, 1, 2, 3, 4));
    assert!(!ready_to_submit(true, 0, 0, 0, 0));
}

#[test]
fn ctrl_c_twice_quits() {
    assert!(on_ctrl_c(true, true).is_none());
    match on_ctrl_c(false, true) {
        Some((ExecState::RstInput(Some(note)), armed)) => {
            assert_eq!(note, "Press Ctrl+C again, or press Ctrl+D to exit");
            assert!(armed);
        }
        other => panic!("unexpected {:?}", other),
    }
    assert!(matches!(on_ctrl_c(false, false), Some((ExecState::RstInput(None), false))));
}

#[test]
fn focus_maps_to_its_area() {
    assert_eq!(InteractArea::from(FocusArea::TextArea), InteractArea::Textarea);
}

#[test]
fn truthiness_of_values() {
    assert!(Value::Int(3).is_truthy());
    assert!(!Value::Int(0).is_truthy());
    assert!(!Value::Nil.is_truthy());
    assert!(!Value::String(String::new()).is_truthy());
    assert!(Value::String("x".to_string()).is_truthy());
    assert!(!Value::Float(0x8000_0000_0000_0000).is_truthy());
    assert!(Value::Float(1.0f64.to_bits()).is_truthy());
    assert!(Value::Collection(vec![0]).is_truthy());
    assert_eq!(VirInt::new(7).value, 7);
}

use virtual_exec::mapping::Mapping;
use virtual_exec::mem::MemoryAllocation;
use virtual_exec::text::decimal_text;
use virtual_exec::tree_view::{get_selected_id, Guide, TreeNode};

fn sample_heap() -> (MemoryAllocation, usize) {
    let mut mem = MemoryAllocation::new(100000);
    let one = mem.allocate(Value::Int(1)).unwrap();
    let two = mem.allocate(Value::Int(2)).unwrap();
    let list = mem.allocate(Value::Collection(vec![one, two])).unwrap();
    let mut m = Mapping::new();
    m.insert("xs".to_string(), list);
    m.insert("n".to_string(), one);
    let obj = mem.allocate(Value::Object(m)).unwrap();
    (mem, obj)
}

#[test]
fn decimal_text_writes_digits() {
    assert_eq!(decimal_text(0), "0");
    assert_eq!(decimal_text(7), "7");
    assert_eq!(decimal_text(1203), "1203");
    assert_eq!(decimal_text(usize::MAX), usize::MAX.to_string());
}

#[test]
fn children_of_objects_and_lists() {
    let (mem, obj) = sample_heap();
    let root = TreeNode::new("root".to_string(), "root".to_string(), obj);
    assert!(root.has_children(&mem));
    let kids = root.get_children(&mem);
    assert_eq!(kids.len(), 2);
    assert_eq!(kids[0].id, "root.xs");
    assert_eq!(kids[0].name, "xs");
    assert_eq!(kids[1].id, "root.n");
    let elems = kids[0].get_children(&mem);
    assert_eq!(elems[1].id, "root.xs.1");
    assert_eq!(elems[1].name, "[1]");
    assert!(!elems[1].has_children(&mem));
}

#[test]
fn flattening_respects_folding() {
    let (mem, obj) = sample_heap();
    let nodes = vec![TreeNode::new("root".to_string(), "root".to_string(), obj)];
    let mut state = TreeViewState::new();
    let rows = state.flatten_visible(&nodes, &mem);
    let ids: Vec<&str> = rows.iter().map(|r| r.node.id.as_str()).collect();
    assert_eq!(ids, vec!["root", "root.xs", "root.xs.0", "root.xs.1", "root.n"]);
    assert_eq!(rows[2].depth, 2);
    assert_eq!(rows[2].parent_is_last, vec![true, false]);
    assert!(rows[3].is_last);
    assert!(rows[4].is_last);
    state.collapse("root.xs");
    assert_eq!(state.visible_count(&nodes, &mem), 3);
    state.selected_index = 2;
    assert_eq!(get_selected_id(nodes.clone(), &state, &mem).as_deref(), Some("root.n"));
    state.selected_index = 3;
    assert_eq!(get_selected_id(nodes, &state, &mem), None);
}

#[test]
fn rows_are_laid_out_with_connectors_and_icons() {
    let (mem, obj) = sample_heap();
    let nodes = vec![TreeNode::new("root".to_string(), "root".to_string(), obj)];
    let mut state = TreeViewState::new();
    let rows = state.flatten_visible(&nodes, &mem);
    state.selected_index = 2;
    let leaf = state.row_layout(&rows[2], 2, rows[2].node.has_children(&mem));
    assert!(leaf.selected);
    assert_eq!(leaf.guides, vec![Guide::Blank, Guide::Vertical, Guide::Branch]);
    assert_eq!(leaf.icon, None);
    let list = state.row_layout(&rows[1], 1, rows[1].node.has_children(&mem));
    assert!(!list.selected);
    assert_eq!(list.guides, vec![Guide::Blank, Guide::Branch]);
    assert_eq!(list.icon, Some(false));
    state.collapse("root.xs");
    let folded = state.row_layout(&rows[1], 1, true);
    assert_eq!(folded.icon, Some(true));
    let root = state.row_layout(&rows[0], 0, true);
    assert!(root.guides.is_empty());
    state.scroll = 3;
    assert_eq!(state.window(5, 10), (3, 5));
    assert_eq!(state.window(5, 1), (3, 4));
    assert_eq!(state.window(2, 4), (2, 2));
}

#[test]
fn input_compiles_as_is_or_with_a_final_semicolon() {
    assert!(virtual_exec::repl::can_compile("a = 1;"));
    assert!(virtual_exec::repl::can_compile("a + 1"));
    assert!(!virtual_exec::repl::can_compile("a = ;"));
}
