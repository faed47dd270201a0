use rstask_core::frontmatter::{task_from_markdown, task_to_markdown};
use rstask_core::task::{SubTask, Task, Timestamp};
use rstask_core::RstaskError;

fn ts(year: u32, month: u32, day: u32, hour: u32, minute: u32, second: u32) -> Timestamp {
    Timestamp {
        year,
        month,
        day,
        hour,
        minute,
        second,
    }
}

fn basic_task() -> Task {
    Task {
        uuid: "test-uuid".to_string(),
        status: "pending".to_string(),
        write_pending: false,
        id: 1,
        deleted: false,
        summary: "Test task".to_string(),
        notes: "This is a note\nWith multiple lines".to_string(),
        tags: vec!["tag1".to_string(), "tag2".to_string()],
        project: "myproject".to_string(),
        priority: "H".to_string(),
        delegated_to: String::new(),
        subtasks: vec![],
        dependencies: vec![],
        created: ts(2024, 1, 1, 0, 0, 0),
        resolved: None,
        due: None,
        filtered: false,
    }
}

#[test]
fn test_task_to_markdown_basic() {
    let task = basic_task();

    let md = task_to_markdown(&task).unwrap();

    assert!(md.starts_with("---\n"));
    assert!(md.contains("summary: Test task"));
    assert!(md.contains("This is a note\nWith multiple lines"));
}

#[test]
fn test_task_from_markdown_basic() {
    let content = r#"---
summary: Test task
tags:
- tag1
- tag2
project: myproject
priority: H
created: 2024-01-01T00:00:00Z
---

This is a note
With multiple lines"#;

    let task = task_from_markdown(content, "test-uuid", "pending", 1).unwrap();

    assert_eq!(task.summary, "Test task");
    assert_eq!(task.notes, "This is a note\nWith multiple lines");
    assert_eq!(task.tags, vec!["tag1", "tag2"]);
    assert_eq!(task.project, "myproject");
    assert_eq!(task.priority, "H");
}

#[test]
fn test_task_roundtrip() {
    let original = Task {
        uuid: "test-uuid".to_string(),
        status: "pending".to_string(),
        write_pending: false,
        id: 1,
        deleted: false,
        summary: "Test task".to_string(),
        notes: "Note content".to_string(),
        tags: vec!["tag1".to_string()],
        project: "project1".to_string(),
        priority: "M".to_string(),
        delegated_to: String::new(),
        subtasks: vec![],
        dependencies: vec![],
        created: ts(2024, 1, 1, 0, 0, 0),
        resolved: None,
        due: None,
        filtered: false,
    };

    let md = task_to_markdown(&original).unwrap();
    let restored = task_from_markdown(&md, "test-uuid", "pending", 1).unwrap();

    assert_eq!(original.summary, restored.summary);
    assert_eq!(original.notes, restored.notes);
    assert_eq!(original.tags, restored.tags);
    assert_eq!(original.project, restored.project);
    assert_eq!(original.priority, restored.priority);
}

#[test]
fn minimal_record_exact_text() {
    let mut task = basic_task();
    task.notes = String::new();
    task.tags = vec![];
    task.project = String::new();
    task.priority = String::new();

    let md = task_to_markdown(&task).unwrap();

    assert_eq!(md, "---\nsummary: Test task\ncreated: 2024-01-01T00:00:00Z\n---\n");
}

#[test]
fn empty_fields_are_omitted() {
    let mut task = basic_task();
    task.notes = String::new();
    task.tags = vec![];
    task.project = String::new();
    task.priority = String::new();

    let md = task_to_markdown(&task).unwrap();

    assert!(!md.contains("tags:"));
    assert!(!md.contains("project:"));
    assert!(!md.contains("priority:"));
    assert!(!md.contains("delegatedto:"));
    assert!(!md.contains("subtasks:"));
    assert!(!md.contains("dependencies:"));
    assert!(!md.contains("resolved:"));
    assert!(!md.contains("due:"));
}

#[test]
fn absent_keys_decode_to_empty_values() {
    let content = "---\nsummary: Bare\ncreated: 2020-06-15T12:30:45Z\n---\n";

    let task = task_from_markdown(content, "u", "pending", 7).unwrap();

    assert_eq!(task.summary, "Bare");
    assert!(task.tags.is_empty());
    assert_eq!(task.project, "");
    assert_eq!(task.priority, "");
    assert_eq!(task.delegated_to, "");
    assert!(task.subtasks.is_empty());
    assert!(task.dependencies.is_empty());
    assert_eq!(task.created, ts(2020, 6, 15, 12, 30, 45));
    assert_eq!(task.resolved, None);
    assert_eq!(task.due, None);
    assert_eq!(task.notes, "");
}

#[test]
fn full_record_roundtrip() {
    let task = Task {
        uuid: "u-2".to_string(),
        status: "completed".to_string(),
        write_pending: false,
        id: 42,
        deleted: false,
        summary: "Everything set".to_string(),
        notes: "body".to_string(),
        tags: vec!["a".to_string(), "b".to_string(), "c".to_string()],
        project: "proj".to_string(),
        priority: "L".to_string(),
        delegated_to: "someone".to_string(),
        subtasks: vec![
            SubTask {
                text: "first step".to_string(),
                done: true,
            },
            SubTask {
                text: "second step".to_string(),
                done: false,
            },
        ],
        dependencies: vec!["dep-1".to_string(), "dep-2".to_string()],
        created: ts(2023, 12, 31, 23, 59, 59),
        resolved: Some(ts(2024, 2, 29, 8, 0, 0)),
        due: Some(ts(2025, 1, 2, 3, 4, 5)),
        filtered: false,
    };

    let md = task_to_markdown(&task).unwrap();
    let restored = task_from_markdown(&md, "u-2", "completed", 42).unwrap();

    assert_eq!(restored.summary, task.summary);
    assert_eq!(restored.notes, task.notes);
    assert_eq!(restored.tags, task.tags);
    assert_eq!(restored.project, task.project);
    assert_eq!(restored.priority, task.priority);
    assert_eq!(restored.delegated_to, task.delegated_to);
    assert_eq!(restored.subtasks.len(), 2);
    assert_eq!(restored.subtasks[0].text, "first step");
    assert!(restored.subtasks[0].done);
    assert_eq!(restored.subtasks[1].text, "second step");
    assert!(!restored.subtasks[1].done);
    assert_eq!(restored.dependencies, task.dependencies);
    assert_eq!(restored.created, task.created);
    assert_eq!(restored.resolved, task.resolved);
    assert_eq!(restored.due, task.due);
    assert_eq!(restored.uuid, "u-2");
    assert_eq!(restored.status, "completed");
    assert_eq!(restored.id, 42);
    assert!(!restored.write_pending);
    assert!(!restored.deleted);
    assert!(!restored.filtered);
}

#[test]
fn empty_notes_leave_nothing_after_closing_delimiter() {
    let mut task = basic_task();
    task.notes = String::new();

    let md = task_to_markdown(&task).unwrap();

    assert!(md.ends_with("---\n"));
}

#[test]
fn notes_without_trailing_newline_get_exactly_one() {
    let mut task = basic_task();
    task.notes = "no newline at end".to_string();

    let md = task_to_markdown(&task).unwrap();

    assert!(md.ends_with("\n\nno newline at end\n"));
    assert!(!md.ends_with("no newline at end\n\n"));
}

#[test]
fn decode_strips_leading_blank_lines_keeps_interior() {
    let content = "---\nsummary: S\ncreated: 2024-01-01T00:00:00Z\n---\n\n\n\nfirst\n\nsecond";

    let task = task_from_markdown(content, "u", "pending", 1).unwrap();

    assert_eq!(task.notes, "first\n\nsecond");
}

#[test]
fn decode_empty_text_is_a_parse_error() {
    let r = task_from_markdown("", "u", "pending", 1);
    assert!(matches!(r, Err(RstaskError::Parse(_))));
}

#[test]
fn decode_without_opening_delimiter_is_a_parse_error() {
    let r = task_from_markdown("summary: S\n---\n", "u", "pending", 1);
    assert!(matches!(r, Err(RstaskError::Parse(_))));
}

#[test]
fn decode_without_closing_delimiter_is_a_parse_error() {
    let r = task_from_markdown("---\nsummary: S\ncreated: 2024-01-01T00:00:00Z\n", "u", "pending", 1);
    assert!(matches!(r, Err(RstaskError::Parse(_))));
}

#[test]
fn decode_missing_summary_is_a_parse_error() {
    let r = task_from_markdown("---\ncreated: 2024-01-01T00:00:00Z\n---\n", "u", "pending", 1);
    assert!(matches!(r, Err(RstaskError::Parse(_))));
}

#[test]
fn decode_missing_created_is_a_parse_error() {
    let r = task_from_markdown("---\nsummary: S\n---\n", "u", "pending", 1);
    assert!(matches!(r, Err(RstaskError::Parse(_))));
}

#[test]
fn decode_malformed_timestamp_is_a_parse_error() {
    let r = task_from_markdown("---\nsummary: S\ncreated: 2024-13-01T00:00:00Z\n---\n", "u", "pending", 1);
    assert!(matches!(r, Err(RstaskError::Parse(_))));
}

#[test]
fn encode_newline_in_summary_is_a_format_error() {
    let mut task = basic_task();
    task.summary = "two\nlines".to_string();

    let r = task_to_markdown(&task);
    assert!(matches!(r, Err(RstaskError::Format(_))));
}

#[test]
fn encode_out_of_range_timestamp_is_a_format_error() {
    let mut task = basic_task();
    task.created = ts(2024, 0, 1, 0, 0, 0);

    let r = task_to_markdown(&task);
    assert!(matches!(r, Err(RstaskError::Format(_))));
}

#[test]
fn scenario_encode_then_decode_reproduces_fields() {
    let task = basic_task();

    let md = task_to_markdown(&task).unwrap();

    assert!(md.starts_with("---\n"));
    assert!(md.contains("summary: Test task"));
    let after_closing = md.splitn(3, "---").nth(2).unwrap();
    assert!(after_closing.contains("This is a note\nWith multiple lines"));

    let restored = task_from_markdown(&md, "test-uuid", "pending", 1).unwrap();
    assert_eq!(restored.summary, "Test task");
    assert_eq!(restored.notes, "This is a note\nWith multiple lines");
    assert_eq!(restored.tags, vec!["tag1", "tag2"]);
    assert_eq!(restored.project, "myproject");
    assert_eq!(restored.priority, "H");
}

#[test]
fn notes_delimiter_lines_stay_in_notes() {
    let mut task = basic_task();
    task.notes = "before\n---\nafter".to_string();

    let md = task_to_markdown(&task).unwrap();
    let restored = task_from_markdown(&md, "test-uuid", "pending", 1).unwrap();

    assert_eq!(restored.notes, "before\n---\nafter");
}
