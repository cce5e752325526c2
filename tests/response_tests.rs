use forge_patch::patch::patch_response;
use forge_patch::metadata::Metadata;
use forge_patch::response::{frame_front_matter, split_front_matter, ToolResponseData};
use serde_json::Value;

#[test]
fn constructors_start_empty() {
    match ToolResponseData::file_read("/f".to_string()) {
        ToolResponseData::FileRead { path, total_lines, metadata } => {
            assert_eq!(path, "/f");
            assert_eq!(total_lines, None);
            assert_eq!(metadata.len(), 0);
        }
        other => panic!("unexpected {other:?}"),
    }
    assert!(matches!(
        ToolResponseData::file_write("/w".to_string()),
        ToolResponseData::FileWrite { bytes_written: None, was_update: None, .. }
    ));
    assert!(matches!(
        ToolResponseData::shell("ls".to_string()),
        ToolResponseData::Shell { exit_code: None, .. }
    ));
    assert!(matches!(
        ToolResponseData::patch("/p".to_string()),
        ToolResponseData::Patch { total_chars: None, warning: None, .. }
    ));
    assert!(matches!(ToolResponseData::generic(), ToolResponseData::Generic { .. }));
}

#[test]
fn setters_touch_only_their_variant() {
    let read = ToolResponseData::file_read("/f".to_string()).with_total_lines(100);
    assert!(matches!(read, ToolResponseData::FileRead { total_lines: Some(100), .. }));
    let same = read.clone().with_exit_code(1).with_bytes_written(5).with_warning("w".to_string());
    assert_eq!(same, read);

    let write = ToolResponseData::file_write("/w".to_string())
        .with_bytes_written(12)
        .with_was_update(true);
    assert!(matches!(
        write,
        ToolResponseData::FileWrite { bytes_written: Some(12), was_update: Some(true), .. }
    ));
    let shell = ToolResponseData::shell("ls".to_string()).with_exit_code(-2);
    assert!(matches!(shell, ToolResponseData::Shell { exit_code: Some(-2), .. }));
    let patch = ToolResponseData::patch("/p".to_string())
        .with_total_chars(7)
        .with_warning("syntax".to_string());
    match patch {
        ToolResponseData::Patch { total_chars, warning, .. } => {
            assert_eq!(total_chars, Some(7));
            assert_eq!(warning, Some("syntax".to_string()));
        }
        other => panic!("unexpected {other:?}"),
    }
}

fn metadata_of(d: &ToolResponseData) -> &Metadata {
    match d {
        ToolResponseData::FileRead { metadata, .. }
        | ToolResponseData::FileWrite { metadata, .. }
        | ToolResponseData::Shell { metadata, .. }
        | ToolResponseData::Patch { metadata, .. }
        | ToolResponseData::Generic { metadata } => metadata,
    }
}

#[test]
fn metadata_keeps_one_value_per_key() {
    let d = ToolResponseData::file_read("/example/file.txt".to_string())
        .with_total_lines(42)
        .with_metadata("encoding".to_string(), Value::from("utf-8"))
        .with_metadata("file_size".to_string(), Value::from(1024))
        .with_metadata("encoding".to_string(), Value::from("latin-1"));
    let m = metadata_of(&d);
    assert_eq!(m.len(), 2);
    assert_eq!(m.get("encoding"), Some(&Value::from("latin-1")));
    assert_eq!(m.get("file_size").and_then(|v| v.as_u64()), Some(1024));
    assert_eq!(m.get("missing"), None);
    let keys: Vec<&str> = m.entries().iter().map(|(k, _)| k.as_str()).collect();
    assert_eq!(keys, vec!["encoding", "file_size"]);
    assert!(matches!(d, ToolResponseData::FileRead { total_lines: Some(42), .. }));
}

#[test]
fn generic_metadata() {
    let d = ToolResponseData::generic().with_metadata("k".to_string(), Value::from(true));
    assert_eq!(metadata_of(&d).get("k"), Some(&Value::from(true)));
}

#[test]
fn frame_puts_block_between_fences() {
    assert_eq!(
        frame_front_matter("type: patch\n", "diff"),
        "---\ntype: patch\n---\ndiff"
    );
    assert_eq!(frame_front_matter("", ""), "---\n---\n");
}

#[test]
fn split_parses_front_matter_block() {
    let input = "---\ntype: file_read\npath: /path/to/file.txt\ntotal_lines: 100\nencoding: utf-8\n---\nFile content here";
    let (block, content) = split_front_matter(input);
    assert_eq!(
        block.as_deref(),
        Some("type: file_read\npath: /path/to/file.txt\ntotal_lines: 100\nencoding: utf-8")
    );
    assert_eq!(content, "File content here");
}

#[test]
fn split_without_fences_is_all_content() {
    assert_eq!(split_front_matter("plain text"), (None, "plain text".to_string()));
    assert_eq!(split_front_matter("---\nno end"), (None, "---\nno end".to_string()));
    assert_eq!(split_front_matter("--\n---\n"), (None, "--\n---\n".to_string()));
    assert_eq!(split_front_matter(""), (None, String::new()));
}

#[test]
fn split_uses_first_closing_fence() {
    let (block, content) = split_front_matter("---\na: 1\n---\nx\n---\ny");
    assert_eq!(block.as_deref(), Some("a: 1"));
    assert_eq!(content, "x\n---\ny");
}

#[test]
fn patch_response_counts_bytes() {
    let d = patch_response("/a".to_string(), "héllo", Some("bad syntax".to_string()));
    match d {
        ToolResponseData::Patch { path, total_chars, warning, metadata } => {
            assert_eq!(path, "/a");
            assert_eq!(total_chars, Some(6));
            assert_eq!(warning, Some("bad syntax".to_string()));
            assert_eq!(metadata.len(), 0);
        }
        other => panic!("unexpected {other:?}"),
    }
    assert!(matches!(
        patch_response("/b".to_string(), "", None),
        ToolResponseData::Patch { total_chars: Some(0), warning: None, .. }
    ));
}

#[test]
fn metadata_order_of_setting_does_not_matter() {
    let ab = ToolResponseData::generic()
        .with_metadata("a".to_string(), Value::from(1))
        .with_metadata("b".to_string(), Value::from(2));
    let ba = ToolResponseData::generic()
        .with_metadata("b".to_string(), Value::from(2))
        .with_metadata("a".to_string(), Value::from(1));
    assert_eq!(ab, ba);
    let keys: Vec<&str> = metadata_of(&ab).entries().iter().map(|(k, _)| k.as_str()).collect();
    assert_eq!(keys, vec!["a", "b"]);
    let x = ToolResponseData::file_read("/f".to_string())
        .with_metadata("é".to_string(), Value::from("x"))
        .with_metadata("e".to_string(), Value::from("y"))
        .with_metadata("ee".to_string(), Value::from("z"));
    let keys: Vec<&str> = metadata_of(&x).entries().iter().map(|(k, _)| k.as_str()).collect();
    assert_eq!(keys, vec!["e", "ee", "é"]);
}
