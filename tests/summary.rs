use petgraph::graph::NodeIndex;
use petgraph::Direction;
use ticktick::parse::parse_document;
use ticktick::report::checkbox;
use ticktick::{task_entries, ParseError, TaskDb, TaskPriority, TaskState};

fn incoming(db: &TaskDb, i: usize) -> Vec<usize> {
    let mut v: Vec<usize> = db
        .task_graph
        .neighbors_directed(NodeIndex::new(i), Direction::Incoming)
        .map(|n| n.index())
        .collect();
    v.sort();
    v
}

fn names(db: &TaskDb) -> Vec<String> {
    db.task_graph.node_weights().map(|t| t.name.clone()).collect()
}

#[test]
fn indentation_fidelity() {
    let text = "# T\n## High\n###     Undone\n    - A\n        - B\n        - C\n    - D\n";
    let (title, entries) = parse_document(text).unwrap();
    assert_eq!(title, "T");
    assert_eq!(entries.len(), 2);
    assert_eq!(entries[0].name, "A");
    assert_eq!(entries[0].priority, Some(TaskPriority::High));
    assert_eq!(entries[0].state, Some(TaskState::Undone));
    assert_eq!(entries[0].children.len(), 2);
    assert_eq!(entries[0].children[0].name, "B");
    assert_eq!(entries[0].children[1].name, "C");
    assert_eq!(entries[0].children[0].priority, None);
    assert_eq!(entries[0].children[0].state, None);
    assert_eq!(entries[1].name, "D");
    assert!(entries[1].children.is_empty());
}

#[test]
fn deeper_nesting_and_return_to_outer_level() {
    let text = "# T\n## Low\n###     Completed\n    - A\n        - B\n            - C\n        - D\n    - E\n";
    let (_, entries) = parse_document(text).unwrap();
    assert_eq!(entries.len(), 2);
    assert_eq!(entries[0].children.len(), 2);
    assert_eq!(entries[0].children[0].children.len(), 1);
    assert_eq!(entries[0].children[0].children[0].name, "C");
    assert_eq!(entries[0].children[1].name, "D");
    assert_eq!(entries[1].name, "E");
}

#[test]
fn skipped_indentation_level_fails() {
    let text = "# T\n## High\n###     Undone\n    - A\n            - B\n";
    assert!(task_entries(text).is_err());
}

#[test]
fn parent_marker_and_blank_lines() {
    let text = "# T\n\n## High\n###     Undone\n    - A / Some parent\n  \n\n    - B\n";
    let (_, entries) = parse_document(text).unwrap();
    assert_eq!(entries.len(), 2);
    assert_eq!(entries[0].name, "A");
    assert_eq!(entries[0].parent.as_deref(), Some("Some parent"));
    assert_eq!(entries[1].parent, None);
}

#[test]
fn parent_with_one_match() {
    let db = task_entries("# T\n## High\n###     Undone\n    - X\n    - Y / X\n").unwrap();
    assert_eq!(names(&db), vec!["X", "Y"]);
    assert_eq!(incoming(&db, 1), vec![0]);
    assert_eq!(db.task_graph.edge_count(), 1);
}

#[test]
fn parent_with_two_matches() {
    let db = task_entries("# T\n## High\n###     Undone\n    - X\n    - X\n    - Y / X\n").unwrap();
    assert_eq!(names(&db), vec!["X", "X", "Y"]);
    assert_eq!(incoming(&db, 2), vec![0, 1]);
}

#[test]
fn parent_without_match_makes_placeholder() {
    let db = task_entries("# T\n## High\n###     Undone\n    - Y / Z\n").unwrap();
    assert_eq!(names(&db), vec!["Y", "Z"]);
    let z = &db.task_graph[NodeIndex::new(1)];
    assert_eq!(z.priority, None);
    assert_eq!(z.state, None);
    assert_eq!(incoming(&db, 0), vec![1]);
    assert_eq!(db.task_graph.edge_count(), 1);
}

#[test]
fn forward_reference_makes_placeholder() {
    let db = task_entries("# T\n## High\n###     Undone\n    - Y / Z\n    - Z\n").unwrap();
    assert_eq!(names(&db), vec!["Y", "Z", "Z"]);
    assert_eq!(incoming(&db, 0), vec![1]);
    assert!(incoming(&db, 2).is_empty());
}

#[test]
fn same_names_are_not_merged() {
    let db = task_entries(
        "# T\n## High\n###     Completed\n    - A\n## Low\n###     Undone\n    - A\n",
    )
    .unwrap();
    assert_eq!(db.task_graph.node_count(), 2);
    assert_eq!(db.task_graph[NodeIndex::new(0)].state, Some(TaskState::Completed));
    assert_eq!(db.task_graph[NodeIndex::new(1)].priority, Some(TaskPriority::Low));
}

#[test]
fn checkbox_per_state() {
    assert_eq!(checkbox(Some(TaskState::Completed)), "[x]");
    assert_eq!(checkbox(Some(TaskState::WontDo)), "[nope]");
    assert_eq!(checkbox(Some(TaskState::Undone)), "[ ]");
    assert_eq!(checkbox(None), "[ ]");
}

#[test]
fn report_checkboxes() {
    let db = task_entries(
        "# T\n## High\n###     Completed\n    - A\n###     Won't Do\n    - B\n###     Undone\n    - C\n        - D\n",
    )
    .unwrap();
    assert_eq!(
        db.markdown_report(),
        "# T\n\n## High\n\n- [x] A\n- [nope] B\n- [ ] C\n  - [ ] D\n"
    );
}

#[test]
fn multi_parent_warning() {
    let db = task_entries("# T\n## High\n###     Undone\n    - X\n    - X\n    - Y / X\n").unwrap();
    assert_eq!(
        db.markdown_report(),
        "# T\n\n## High\n\n- [ ] X\n  - (multiple parents) [ ] Y\n- [ ] X\n  - (multiple parents) [ ] Y\n"
    );
}

#[test]
fn single_parent_has_no_warning() {
    let db = task_entries("# T\n## Medium\n###     Undone\n    - X\n    - Y / X\n").unwrap();
    assert_eq!(db.markdown_report(), "# T\n\n## Medium\n\n- [ ] X\n  - [ ] Y\n");
}

#[test]
fn placeholder_listed_under_none() {
    let db = task_entries("# T\n## High\n###     Undone\n    - Y / Z\n").unwrap();
    assert_eq!(db.markdown_report(), "# T\n\n## None\n\n- [ ] Z\n  - [ ] Y\n");
}

#[test]
fn groups_in_priority_order() {
    let db = task_entries(
        "# T\n## High\n###     Undone\n    - A\n## Low\n###     Undone\n    - B\n## None\n###     Completed\n    - C\n",
    )
    .unwrap();
    let groups = db.root_groups();
    assert_eq!(groups.len(), 3);
    assert_eq!(groups[0], (TaskPriority::High, vec![0]));
    assert_eq!(groups[1], (TaskPriority::Low, vec![1]));
    assert_eq!(groups[2], (TaskPriority::NoPriority, vec![2]));
    assert_eq!(
        db.markdown_report(),
        "# T\n\n## High\n\n- [ ] A\n\n## Low\n\n- [ ] B\n\n## None\n\n- [x] C\n"
    );
}

#[test]
fn empty_document() {
    let db = task_entries("# Weekly summary\n").unwrap();
    assert_eq!(db.title, "Weekly summary");
    assert_eq!(db.task_graph.node_count(), 0);
    assert!(db.root_groups().is_empty());
    assert_eq!(db.markdown_report(), "# Weekly summary\n\nNothing. Eek!\n");
}

#[test]
fn empty_sections() {
    let db = task_entries("# T\n\n## High\n## Low\n###     Undone\n").unwrap();
    assert_eq!(db.markdown_report(), "# T\n\nNothing. Eek!\n");
}

#[test]
fn missing_title_marker() {
    assert_eq!(
        task_entries("Title\n## High\n").err(),
        Some(ParseError { position: 0 })
    );
}

#[test]
fn title_without_line_end() {
    assert_eq!(task_entries("# Title").err(), Some(ParseError { position: 7 }));
}

#[test]
fn misspelled_status_header() {
    let r = task_entries("# T\n## High\n###     Complete\n    - A\n");
    assert_eq!(r.err(), Some(ParseError { position: 12 }));
}

#[test]
fn sections_out_of_order() {
    assert!(task_entries("# T\n## Low\n## High\n").is_err());
}

#[test]
fn crlf_line_ends() {
    let db = task_entries("# T\r\n## High\r\n###     Undone\r\n    - A\r\n        - B\r\n").unwrap();
    assert_eq!(db.markdown_report(), "# T\n\n## High\n\n- [ ] A\n  - [ ] B\n");
}

#[test]
fn priority_idents() {
    assert_eq!(TaskPriority::High.ticktick_ident(), "High");
    assert_eq!(TaskPriority::Medium.ticktick_ident(), "Medium");
    assert_eq!(TaskPriority::Low.ticktick_ident(), "Low");
    assert_eq!(TaskPriority::NoPriority.ticktick_ident(), "None");
}

#[test]
fn dot_description() {
    let db = task_entries("# T\n## High\n###     Undone\n    - X\n        - Y\n").unwrap();
    let dot = db.dot_text();
    assert!(dot.starts_with("digraph {"));
    assert!(dot.contains("0 -> 1"));
    assert!(dot.contains("\\\"Y\\\""));
}

#[test]
fn build_by_hand() {
    let text = "# T\n## High\n###     Undone\n    - A\n        - B /A\n";
    let (title, entries) = parse_document(text).unwrap();
    let mut db = TaskDb::new(&title);
    for e in entries {
        db.add_ticktick_summary_task_entry(e);
    }
    assert_eq!(names(&db), vec!["A", "B"]);
    assert_eq!(incoming(&db, 1), vec![0, 0]);
    assert_eq!(
        db.markdown_report(),
        "# T\n\n## High\n\n- [ ] A\n  - (multiple parents) [ ] B\n  - (multiple parents) [ ] B\n"
    );
}

#[test]
fn parent_marker_with_or_without_space() {
    let db = task_entries("# T\n## High\n###     Undone\n    - X\n    - Y / X\n    - W /X\n").unwrap();
    assert_eq!(names(&db), vec!["X", "Y", "W"]);
    assert_eq!(incoming(&db, 1), vec![0]);
    assert_eq!(incoming(&db, 2), vec![0]);
    assert_eq!(db.task_graph.edge_count(), 2);
}

#[test]
fn empty_task_name() {
    let (_, entries) = parse_document("# T\n## Low\n###     Undone\n    - \n").unwrap();
    assert_eq!(entries.len(), 1);
    assert_eq!(entries[0].name, "");
}

#[test]
fn blank_lines_with_spaces_after_title() {
    let db = task_entries("# T\n \t\n\n## None\n###     Won't Do\n    - A\n").unwrap();
    assert_eq!(db.markdown_report(), "# T\n\n## None\n\n- [nope] A\n");
}

#[test]
fn trailing_text_is_rejected() {
    let r = task_entries("# T\n## High\n###     Undone\n    - A\nextra\n");
    assert_eq!(r.err(), Some(ParseError { position: 35 }));
}

#[test]
fn blank_lines_of_unicode_horizontal_whitespace() {
    let plain = task_entries("# T\n").unwrap();
    let db = task_entries("# T\n\u{a0}\n\u{3000}\u{2003}\t \n").unwrap();
    assert_eq!(db.title, plain.title);
    assert_eq!(db.task_graph.node_count(), 0);
    let db = task_entries("# T\n## High\n###     Undone\n    - A\n\u{a0}\u{202f}\n    - B\n").unwrap();
    assert_eq!(names(&db), vec!["A", "B"]);
}

#[test]
fn other_line_ends() {
    let db = task_entries("# T\u{2028}## High\u{85}###     Undone\u{0c}    - A\u{2029}        - B\u{0b}").unwrap();
    assert_eq!(db.markdown_report(), "# T\n\n## High\n\n- [ ] A\n  - [ ] B\n");
}

#[test]
fn whitespace_without_line_end_is_not_filler() {
    assert!(task_entries("# T\n\u{a0}").is_err());
}

#[test]
fn children_in_document_order() {
    let db = task_entries("# T\n## High\n###     Undone\n    - A\n        - B\n        - C\n        - D\n").unwrap();
    assert_eq!(db.markdown_report(), "# T\n\n## High\n\n- [ ] A\n  - [ ] B\n  - [ ] C\n  - [ ] D\n");
}
