use minutes_core::cli::{list_entry, log_tail, model_download, parse_content_type, select_entries, ListEntry};
use minutes_core::pipeline::ContentType;

fn entry(path: &str, date: &str, kind: &str) -> ListEntry {
    ListEntry { path: path.into(), title: path.into(), date: date.into(), content_type: kind.into() }
}

#[test]
fn content_types_parse() {
    assert_eq!(parse_content_type("meeting"), Ok(ContentType::Meeting));
    assert_eq!(parse_content_type("memo"), Ok(ContentType::Memo));
    assert_eq!(
        parse_content_type("call"),
        Err("unknown content type: call. Use 'meeting' or 'memo'.".to_string())
    );
}

#[test]
fn model_downloads() {
    let d = model_download("tiny").unwrap();
    assert_eq!(d.url, "https://huggingface.co/ggerganov/whisper.cpp/resolve/main/ggml-tiny.bin");
    assert_eq!(d.file_name, "ggml-tiny.bin");
    match model_download("huge") {
        Err(m) => assert_eq!(m, "unknown model: huge. Available: tiny, base, small, medium, large-v3"),
        Ok(_) => panic!("expected an error"),
    }
}

#[test]
fn list_entry_fallbacks() {
    let e = list_entry("/m/a.md", "a", "no frontmatter here");
    assert_eq!(e.title, "a");
    assert_eq!(e.date, "");
    assert_eq!(e.content_type, "meeting");
    let e = list_entry("/m/b.md", "b", "---\ntitle: B\ndate: 2026-01-02\ntype: memo\n---\n");
    assert_eq!((e.title.as_str(), e.date.as_str(), e.content_type.as_str()), ("B", "2026-01-02", "memo"));
}

#[test]
fn entries_newest_first_and_stable() {
    let entries = vec![
        entry("a", "2026-01-01", "memo"),
        entry("b", "2026-03-01", "meeting"),
        entry("c", "2026-01-01", "memo"),
        entry("d", "2026-02-01", "memo"),
    ];
    let all = select_entries(entries.clone(), None, 10);
    let order: Vec<&str> = all.iter().map(|e| e.path.as_str()).collect();
    assert_eq!(order, vec!["b", "d", "a", "c"]);
    let memos = select_entries(entries.clone(), Some("memo"), 2);
    let order: Vec<&str> = memos.iter().map(|e| e.path.as_str()).collect();
    assert_eq!(order, vec!["d", "a"]);
    assert!(select_entries(entries, Some("note"), 5).is_empty());
}

#[test]
fn log_tail_filters_and_cuts() {
    let log = "a\n{\"level\":\"error\"} b\nc ERROR\nd\n";
    assert_eq!(log_tail(log, false, 2), vec!["c ERROR".to_string(), "d".to_string()]);
    assert_eq!(
        log_tail(log, true, 10),
        vec!["{\"level\":\"error\"} b".to_string(), "c ERROR".to_string()]
    );
    assert!(log_tail("", false, 3).is_empty());
}
