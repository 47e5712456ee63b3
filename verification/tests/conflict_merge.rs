use svn_desktop_tool::conflict::{
    assemble_conflict, is_marker, parse_conflict_bytes, Choice, ConflictBlockBytes, ConflictDoc, ConflictPart,
    LineEnding,
};

const CONFLICT_1: &str = "line1\n<<<<<<< .mine\nLOCAL-LINE\n||||||| .r3\nline2\n=======\nREMOTE-LINE\n>>>>>>> .r4\nline3\nline4\n";

fn block_of(doc: &ConflictDoc, i: usize) -> &ConflictBlockBytes {
    match &doc.parts[i] {
        ConflictPart::Block(b) => b,
        ConflictPart::Context(_) => panic!("parts[{i}] 不是块"),
    }
}

#[test]
fn parse_single_block_direction() {
    let doc = parse_conflict_bytes(CONFLICT_1.as_bytes()).unwrap();
    assert!(doc.has_markers);
    assert_eq!(doc.line_ending, LineEnding::Lf);
    assert!(doc.trailing_newline);
    assert_eq!(doc.parts.len(), 3);
    let b = block_of(&doc, 1);
    assert_eq!(b.mine, vec![b"LOCAL-LINE".to_vec()], "mine = 本地修改");
    assert_eq!(b.base, vec![b"line2".to_vec()], "base = 共同祖先");
    assert_eq!(b.theirs, vec![b"REMOTE-LINE".to_vec()], "theirs = 远端修改");
    match &doc.parts[0] {
        ConflictPart::Context(c) => assert_eq!(c, &vec![b"line1".to_vec()]),
        _ => panic!(),
    }
    match &doc.parts[2] {
        ConflictPart::Context(c) => assert_eq!(c, &vec![b"line3".to_vec(), b"line4".to_vec()]),
        _ => panic!(),
    }
    let ui = doc.ui_blocks();
    assert_eq!(ui.len(), 1);
    assert_eq!(ui[0].mine, vec!["LOCAL-LINE".to_string()]);
    assert_eq!(ui[0].theirs, vec!["REMOTE-LINE".to_string()]);
}

#[test]
fn parse_block_without_base() {
    let text = "a\n<<<<<<< .mine\nM1\n=======\nT1\n>>>>>>> .r2\nb\n";
    let doc = parse_conflict_bytes(text.as_bytes()).unwrap();
    let b = block_of(&doc, 1);
    assert!(b.base.is_empty(), "无 base 段");
    assert_eq!(b.mine, vec![b"M1".to_vec()]);
    assert_eq!(b.theirs, vec![b"T1".to_vec()]);
}

#[test]
fn parse_multiple_blocks_with_context() {
    let text = "h\n<<<<<<< .mine\nA\n=======\nB\n>>>>>>> .r2\nmid\n<<<<<<< .mine\nC\n||||||| .r2\nD\n=======\nE\n>>>>>>> .r3\ntail\n";
    let doc = parse_conflict_bytes(text.as_bytes()).unwrap();
    let blocks: Vec<&ConflictBlockBytes> = doc
        .parts
        .iter()
        .filter_map(|p| match p {
            ConflictPart::Block(b) => Some(b),
            _ => None,
        })
        .collect();
    assert_eq!(blocks.len(), 2);
    assert_eq!(blocks[0].mine, vec![b"A".to_vec()]);
    assert!(blocks[0].base.is_empty());
    assert_eq!(blocks[0].theirs, vec![b"B".to_vec()]);
    assert_eq!(blocks[1].mine, vec![b"C".to_vec()]);
    assert_eq!(blocks[1].base, vec![b"D".to_vec()]);
    assert_eq!(blocks[1].theirs, vec![b"E".to_vec()]);
    let ctxs: Vec<usize> = doc
        .parts
        .iter()
        .filter_map(|p| match p {
            ConflictPart::Context(c) => Some(c.len()),
            _ => None,
        })
        .collect();
    assert_eq!(ctxs, vec![1, 1, 1]);
}

#[test]
fn markdown_separator_not_misread() {
    let text = "title\n=======\nbody\n";
    let doc = parse_conflict_bytes(text.as_bytes()).unwrap();
    assert!(!doc.has_markers, "无冲突标记");
    assert_eq!(doc.parts.len(), 1);
    match &doc.parts[0] {
        ConflictPart::Context(c) => assert_eq!(c.len(), 3),
        _ => panic!(),
    }
}

#[test]
fn unclosed_block_errors() {
    let text = "a\n<<<<<<< .mine\nM1\n";
    let err = parse_conflict_bytes(text.as_bytes()).unwrap_err();
    assert!(err.contains("未闭合"), "错误信息: {}", err);
}

#[test]
fn crlf_preserved() {
    let text = "a\r\n<<<<<<< .mine\r\nM\r\n=======\r\nT\r\n>>>>>>> .r2\r\nb\r\n";
    let doc = parse_conflict_bytes(text.as_bytes()).unwrap();
    assert_eq!(doc.line_ending, LineEnding::Crlf);
    let out = assemble_conflict(&doc, &[Choice::Mine]);
    assert_eq!(String::from_utf8(out).unwrap(), "a\r\nM\r\nb\r\n");
}

#[test]
fn assemble_choices_matrix() {
    let doc = parse_conflict_bytes(CONFLICT_1.as_bytes()).unwrap();
    let mine = assemble_conflict(&doc, &[Choice::Mine]);
    assert_eq!(String::from_utf8(mine).unwrap(), "line1\nLOCAL-LINE\nline3\nline4\n");
    let theirs = assemble_conflict(&doc, &[Choice::Theirs]);
    assert_eq!(String::from_utf8(theirs).unwrap(), "line1\nREMOTE-LINE\nline3\nline4\n");
    let both = assemble_conflict(&doc, &[Choice::Both]);
    assert_eq!(
        String::from_utf8(both).unwrap(),
        "line1\nLOCAL-LINE\nREMOTE-LINE\nline3\nline4\n"
    );
    let none = assemble_conflict(&doc, &[Choice::Neither]);
    assert_eq!(String::from_utf8(none).unwrap(), "line1\nline3\nline4\n");
}

#[test]
fn assemble_context_preserved_multi_block() {
    let text = "h\n<<<<<<< .mine\nA\n=======\nB\n>>>>>>> .r2\nmid\n<<<<<<< .mine\nC\n=======\nD\n>>>>>>> .r3\ntail\n";
    let doc = parse_conflict_bytes(text.as_bytes()).unwrap();
    let out = assemble_conflict(&doc, &[Choice::Theirs, Choice::Mine]);
    assert_eq!(String::from_utf8(out).unwrap(), "h\nB\nmid\nC\ntail\n");
}

#[test]
fn assemble_keeps_bytes_untouched_for_non_utf8() {
    let text = vec![b'a', b'\n'];
    let mut conflict = b"<<<<<<< .mine\n\xff\n=======\nT\n>>>>>>> .r2\n".to_vec();
    conflict.extend_from_slice(&text);
    let doc = parse_conflict_bytes(&conflict).unwrap();
    let out = assemble_conflict(&doc, &[Choice::Mine]);
    assert!(out.contains(&0xff), "非 UTF-8 字节应原样保留: {:?}", out);
}

#[test]
fn empty_and_no_trailing_newline() {
    let text = "a\n<<<<<<< .mine\nM\n=======\nT\n>>>>>>> .r2";
    let doc = parse_conflict_bytes(text.as_bytes()).unwrap();
    assert!(!doc.trailing_newline);
    let out = assemble_conflict(&doc, &[Choice::Mine]);
    assert_eq!(String::from_utf8(out).unwrap(), "a\nM");
}

// ---------------------------------------------------------------------------
// further cases
// ---------------------------------------------------------------------------

#[test]
fn unmarked_file_round_trips() {
    for text in ["plain\ntext\n", "no newline at end", "", "\n\n", "title\n=======\nbody\n"] {
        let doc = parse_conflict_bytes(text.as_bytes()).unwrap();
        assert!(!doc.has_markers);
        let out = assemble_conflict(&doc, &[]);
        assert_eq!(out, text.as_bytes());
    }
}

#[test]
fn crlf_unmarked_file_round_trips() {
    for text in ["a\r\nb\r\n", "a\r\nb", "x\r\n\r\n", "mid\rdle\nend\n", "one\r\ntitle\r\n=======\r\n"] {
        let doc = parse_conflict_bytes(text.as_bytes()).unwrap();
        assert!(!doc.has_markers);
        assert_eq!(assemble_conflict(&doc, &[]), text.as_bytes());
    }
}

#[test]
fn markers_iff_blocks() {
    let doc = parse_conflict_bytes(CONFLICT_1.as_bytes()).unwrap();
    assert!(doc.has_markers);
    assert_eq!(doc.ui_blocks().len(), 1);
    let doc = parse_conflict_bytes(b"a\nb\n").unwrap();
    assert!(!doc.has_markers);
    assert!(doc.ui_blocks().is_empty());
}

#[test]
fn ui_blocks_decode_base_lines() {
    let doc = parse_conflict_bytes(CONFLICT_1.as_bytes()).unwrap();
    let ui = doc.ui_blocks();
    assert_eq!(ui[0].base, vec!["line2".to_string()]);
}

#[test]
fn is_marker_needs_prefix_and_separator() {
    assert!(is_marker(b"<<<<<<< .mine", b"<<<<<<<"));
    assert!(is_marker(b"=======", b"======="));
    assert!(!is_marker(b"<<<<<<<<", b"<<<<<<<"));
    assert!(!is_marker(b"<<<<<", b"<<<<<<<"));
}

#[test]
fn resolved_file_reads_back_without_markers() {
    let doc = parse_conflict_bytes(CONFLICT_1.as_bytes()).unwrap();
    for c in [Choice::Mine, Choice::Theirs, Choice::Both, Choice::Neither] {
        let out = assemble_conflict(&doc, &[c]);
        let again = parse_conflict_bytes(&out).unwrap();
        assert!(!again.has_markers);
    }
    // a kept line that itself opens a block is the exception
    let text = "<<<<<<< .mine\n<<<<<<< nested\n=======\nT\n>>>>>>> .r2\n";
    let doc = parse_conflict_bytes(text.as_bytes()).unwrap();
    let out = assemble_conflict(&doc, &[Choice::Mine]);
    assert_eq!(out, b"<<<<<<< nested\n".to_vec());
    assert!(parse_conflict_bytes(&out).is_err());
}
