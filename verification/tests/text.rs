use mqdish::shared::models::{ExecutionMode, Task};
use mqdish::shared::text::{decimal_text, join};

#[test]
fn decimal_numerals() {
    assert_eq!(decimal_text(0), "0");
    assert_eq!(decimal_text(7), "7");
    assert_eq!(decimal_text(9), "9");
    assert_eq!(decimal_text(10), "10");
    assert_eq!(decimal_text(99), "99");
    assert_eq!(decimal_text(100), "100");
    assert_eq!(decimal_text(5672), "5672");
    assert_eq!(decimal_text(40_960), "40960");
    assert_eq!(decimal_text(u16::MAX), "65535");
}

#[test]
fn joined_lists() {
    assert_eq!(join(&Vec::new(), ", "), "");
    assert_eq!(join(&vec!["a".to_string()], ", "), "a");
    assert_eq!(join(&vec!["a".to_string(), "b".to_string(), "c".to_string()], ", "), "a, b, c");
    assert_eq!(join(&vec![String::new(), String::new()], "-"), "-");
    assert_eq!(join(&vec!["a".to_string(), "b".to_string()], ""), "ab");
}

#[test]
fn tasks_compare_by_their_fields() {
    let task = Task {
        shell: "sh".to_string(),
        command: String::new(),
        execution_mode: ExecutionMode::Exclusive,
        concurrency_hint: Some(8),
    };
    assert_eq!(task.clone(), task);
    let pooled = Task { execution_mode: ExecutionMode::Pooled, ..task.clone() };
    assert_ne!(pooled, task);
    let hinted = Task { concurrency_hint: None, ..task.clone() };
    assert_ne!(hinted, task);
}
