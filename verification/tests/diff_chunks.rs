use svn_desktop_tool::diff::{diff_chunks, line_offsets};
use svn_desktop_tool::models::DiffChunk;

fn pair(from_a: usize, to_a: usize, from_b: usize, to_b: usize) -> DiffChunk {
    DiffChunk { from_a, to_a, from_b, to_b }
}

#[test]
fn line_offsets_basic() {
    assert_eq!(line_offsets("a\nb\nc"), vec![0, 2, 4, 5]);
    assert_eq!(line_offsets(""), vec![0]);
    assert_eq!(line_offsets("abc"), vec![0, 3]);
}

#[test]
fn replace_one_line() {
    let chunks = diff_chunks("a\nb\nc\n".into(), "a\nB\nc\n".into());
    assert_eq!(chunks, vec![pair(2, 4, 2, 4)]);
}

#[test]
fn insert_line_middle() {
    let chunks = diff_chunks("a\nc\n".into(), "a\nb\nc\n".into());
    assert_eq!(chunks, vec![pair(2, 2, 2, 4)]);
}

#[test]
fn delete_line_middle() {
    let chunks = diff_chunks("a\nb\nc\n".into(), "a\nc\n".into());
    assert_eq!(chunks, vec![pair(2, 4, 2, 2)]);
}

#[test]
fn equal_text_no_chunks() {
    let chunks = diff_chunks("same\ncontent\n".into(), "same\ncontent\n".into());
    assert!(chunks.is_empty());
}

#[test]
fn append_at_end() {
    let chunks = diff_chunks("a\n".into(), "a\nb\nc\n".into());
    assert_eq!(chunks, vec![pair(2, 2, 2, 6)]);
}

// ---------------------------------------------------------------------------
// further cases
// ---------------------------------------------------------------------------

#[test]
fn line_offsets_trailing_newline_and_multibyte() {
    assert_eq!(line_offsets("a\n"), vec![0, 2]);
    // offsets count bytes: "中" is three bytes
    assert_eq!(line_offsets("中\nx"), vec![0, 4, 5]);
}

#[test]
fn everything_replaced() {
    let chunks = diff_chunks("x\n".into(), "y\n".into());
    assert_eq!(chunks, vec![pair(0, 2, 0, 2)]);
    let chunks = diff_chunks("".into(), "n\n".into());
    assert_eq!(chunks, vec![pair(0, 0, 0, 2)]);
}
