use vastc::source::{
    CursorParsingError, OptionalChar, Position, Segment, Source, SourceSpan, SourceSpanOps, EOF,
};
use vastc::lines::{find_lines, line_index_of};

#[test]
fn source_counts_characters_not_bytes() {
    let s = Source::new("t.vs", "aé€😀");
    assert_eq!(s.len(), 4);
    assert!(!s.is_empty());
    assert_eq!(s.text(), "aé€😀");
    assert_eq!(s.identifier(), "t.vs");
}

#[test]
fn source_byte_index_follows_utf8_widths() {
    let s = Source::new("t", "aé€😀");
    assert_eq!(s.byte_index(0), 0);
    assert_eq!(s.byte_index(1), 1);
    assert_eq!(s.byte_index(2), 3);
    assert_eq!(s.byte_index(3), 6);
    assert_eq!(s.byte_index(4), 10);
}

#[test]
fn source_char_at_past_end_is_eof() {
    let s = Source::new("t", "xé");
    assert_eq!(s.char_at(0), 'x');
    assert_eq!(s.char_at(1), 'é');
    assert_eq!(s.char_at(2), EOF);
    assert_eq!(s.char_at(100), EOF);
    assert_eq!(s.char_at_0(1), Some('é'));
    assert_eq!(s.char_at_0(2), None);
}

#[test]
fn source_empty_text() {
    let s = Source::new("empty", "");
    assert_eq!(s.len(), 0);
    assert!(s.is_empty());
    assert_eq!(s.byte_index(0), 0);
    assert_eq!(s.char_at(0), EOF);
}

#[test]
fn source_slice_and_byte_range() {
    let s = Source::new("t", "hé llo");
    assert_eq!(s.byte_range(1..3), 1..4);
    assert_eq!(s.slice(1..3), "é ");
    assert_eq!(s.slice(0..0), "");
    assert_eq!(s.slice(0..6), "hé llo");
}

#[test]
fn source_debug_string() {
    let s = Source::new("main.vs", "abc");
    assert_eq!(s.debug_string(), "Source(id: main.vs, len: 3}");
    let e = Source::new("", "");
    assert_eq!(e.debug_string(), "Source(id: , len: 0}");
}

#[test]
fn source_position_and_segment() {
    let s = Source::new("t", "ab\ncd");
    let p = s.position_of(4);
    assert_eq!(p.index(), 4);
    assert_eq!(p.byte_index(), 4);
    assert_eq!(p.line(), 1);
    assert_eq!(p.column(), 1);
    let q = s.position_of(2);
    assert_eq!((q.line(), q.column()), (0, 2));
    let r = s.position_of(3);
    assert_eq!((r.line(), r.column()), (1, 0));
    let end = s.position_of(5);
    assert_eq!((end.line(), end.column()), (1, 2));
    let seg = s.as_segment(1..4);
    assert_eq!(seg.as_span(), 1..4);
    assert_eq!(seg.start_position().index(), 1);
    assert_eq!(seg.end_position().index(), 4);
    assert_eq!(seg.length(), 3);
    let back = s.as_segment(4..1);
    assert_eq!(back.length(), 0);
}

#[test]
fn position_and_segment_into_span() {
    let s = Source::new("t", "héllo");
    let p: Position = s.position_of(2);
    let span: SourceSpan = p.into();
    assert_eq!(span, 2..3);
    let seg: Segment = s.as_segment(1..4);
    let span2: SourceSpan = seg.into();
    assert_eq!(span2, 1..4);
}

#[test]
fn span_join_covers_both() {
    let a: SourceSpan = 2..5;
    let b: SourceSpan = 4..9;
    let j = a.join(b.clone());
    assert_eq!(j, 2..9);
    assert!(j.contains_span(&a));
    assert!(j.contains_span(&b));
    assert_eq!(b.join(a.clone()), 2..9);
    assert_eq!(j.start(), 2);
    assert_eq!(j.end(), 9);
}

#[test]
fn span_contains_span_edges() {
    let a: SourceSpan = 2..5;
    assert!(a.contains_span(&(2..5)));
    assert!(a.contains_span(&(3..3)));
    assert!(!a.contains_span(&(1..5)));
    assert!(!a.contains_span(&(2..6)));
}

#[test]
fn cursor_peeks_and_moves() {
    let s = Source::new("t", "abc");
    let mut c = s.cursor();
    assert_eq!(c.index(), 0);
    assert_eq!(c.peek(), 'a');
    assert_eq!(c.peek_next(), 'b');
    assert_eq!(c.peek_n(2), 'c');
    assert_eq!(c.peek_n(3), EOF);
    assert_eq!(c.peek_0(), Some('a'));
    assert_eq!(c.peek_next_0(), Some('b'));
    assert_eq!(c.peek_n_0(3), None);
    assert_eq!(c.advance(), 'b');
    assert_eq!(c.advance_0(), Some('c'));
    assert_eq!(c.advance(), EOF);
    assert!(c.is_eof());
    assert!(c.done());
    assert_eq!(c.advance(), EOF);
    assert_eq!(c.index(), 3);
    assert_eq!(c.retreat(), 'c');
    assert_eq!(c.index(), 2);
}

#[test]
fn cursor_advance_by_and_set_index() {
    let s = Source::new("t", "hello");
    let mut c = s.cursor_at(1);
    assert_eq!(c.advance_by(2), 'l');
    assert_eq!(c.index(), 3);
    c.set_index(0);
    assert_eq!(c.peek(), 'h');
    assert_eq!(c.remaining(), 0..5);
    assert_eq!(c.mark(), 0);
    assert_eq!(c.here(), 0..1);
    c.set_index(5);
    assert_eq!(c.span_from(2), 2..5);
    assert_eq!(c.byte_index(), 5);
}

#[test]
fn cursor_starts_with_and_consume_str() {
    let s = Source::new("t", "fn main");
    let mut c = s.cursor();
    assert!(c.starts_with("fn"));
    assert!(c.starts_with(""));
    assert!(!c.starts_with("fx"));
    assert!(!c.starts_with("fn main()"));
    assert!(c.consume_str("fn "));
    assert_eq!(c.index(), 3);
    assert!(!c.consume_str("man"));
    assert_eq!(c.index(), 3);
}

#[test]
fn cursor_consume_if() {
    let s = Source::new("t", "ab");
    let mut c = s.cursor();
    assert!(!c.consume_if('b'));
    assert_eq!(c.index(), 0);
    assert!(c.consume_if('a'));
    assert_eq!(c.index(), 1);
}

#[test]
fn cursor_consume_while_digits() {
    let s = Source::new("t", "123abc");
    let mut c = s.cursor();
    let span = c.consume_while(|ch: char| ch.is_ascii_digit());
    assert_eq!(span, 0..3);
    assert_eq!(c.consume_while_1(|ch: char| ch.is_ascii_digit()), None);
    assert_eq!(c.index(), 3);
    assert_eq!(c.consume_while_1(|ch: char| ch.is_ascii_alphabetic()), Some(3..6));
}

#[test]
fn cursor_consume_whitespace_uses_unicode_whitespace() {
    // U+3000 IDEOGRAPHIC SPACE is whitespace to `char::is_whitespace`
    let s = Source::new("t", " \t\n\u{3000}x");
    let mut c = s.cursor();
    assert_eq!(c.consume_whitespace(), 0..4);
    assert_eq!(c.peek(), 'x');
    assert_eq!(c.consume_whitespace_1(), None);
    assert_eq!(c.index(), 4);
}

#[test]
fn cursor_consume_identifier_unicode() {
    let s = Source::new("t", "_héllo9 rest");
    let mut c = s.cursor();
    assert_eq!(c.consume_identifier(), Some(0..7));
    assert_eq!(c.consume_identifier(), None);
    assert_eq!(c.index(), 7);
    let s2 = Source::new("t", "9abc");
    let mut c2 = s2.cursor();
    assert_eq!(c2.consume_identifier(), None);
    assert_eq!(c2.index(), 0);
    let s3 = Source::new("t", "a١");
    let mut c3 = s3.cursor();
    // ARABIC-INDIC DIGIT ONE is numeric, so alphanumeric
    assert_eq!(c3.consume_identifier(), Some(0..2));
}

#[test]
fn cursor_line_comment() {
    let s = Source::new("t", "// hi\nnext");
    let mut c = s.cursor();
    assert_eq!(c.consume_line_comment(), Some(0..5));
    assert_eq!(c.peek(), '\n');
    assert_eq!(c.consume_line_comment(), None);
    assert_eq!(c.index(), 5);
}

#[test]
fn cursor_block_comment() {
    let s = Source::new("t", "/* a */b");
    let mut c = s.cursor();
    assert_eq!(c.consume_block_comment(), Some(0..7));
    assert_eq!(c.peek(), 'b');
    let s2 = Source::new("t", "/* open");
    let mut c2 = s2.cursor();
    assert_eq!(c2.consume_block_comment(), None);
    assert_eq!(c2.index(), 7);
    let s3 = Source::new("t", "x/*");
    let mut c3 = s3.cursor();
    assert_eq!(c3.consume_block_comment(), None);
    assert_eq!(c3.index(), 0);
}

#[test]
fn cursor_expect_char() {
    let s = Source::new("t", "ab");
    let mut c = s.cursor();
    assert_eq!(c.expect('a').ok(), Some(0..1));
    match c.expect('x') {
        Err(CursorParsingError::UnexpectedCharacter { position, expected, found }) => {
            assert_eq!(position, 1);
            assert_eq!(expected, 'x');
            assert_eq!(found, 'b');
        },
        _ => panic!("expected an error"),
    }
    assert_eq!(c.index(), 1);
}

#[test]
fn cursor_expect_str() {
    let s = Source::new("t", "let x");
    let mut c = s.cursor();
    assert_eq!(c.expect_str("let").ok(), Some(0..3));
    match c.expect_str("y") {
        Err(CursorParsingError::UnexpectedText { position, expected }) => {
            assert_eq!(position, 3);
            assert_eq!(expected, "y");
        },
        _ => panic!("expected an error"),
    }
    assert_eq!(c.index(), 3);
}

#[test]
fn cursor_checkpoint_restore_round_trip() {
    let s = Source::new("t", "abcdef");
    let mut c = s.cursor_at(2);
    let cp = c.checkpoint();
    c.advance_by(3);
    assert_eq!(c.index(), 5);
    c.restore(cp);
    assert_eq!(c.index(), 2);
    assert_eq!(c.peek(), 'c');
}

#[test]
fn cursor_try_consume_restores_on_none() {
    let s = Source::new("t", "abc");
    let mut c = s.cursor();
    let r: Option<u32> = c.try_consume(|c| {
        c.advance();
        c.advance();
        None
    });
    assert_eq!(r, None);
    assert_eq!(c.index(), 0);
    let r2: Option<u32> = c.try_consume(|c| {
        c.advance();
        Some(7)
    });
    assert_eq!(r2, Some(7));
    assert_eq!(c.index(), 1);
}

#[test]
fn optional_char_on_eof() {
    assert!(EOF.is_eof());
    assert!(!'a'.is_eof());
    assert_eq!('a'.expect(), Ok(()));
    assert_eq!(EOF.expect(), Err(()));
    assert_eq!('a'.opt(), Some('a'));
    assert_eq!(EOF.opt(), None);
}

#[test]
fn source_lines_split_after_newlines() {
    let s = Source::new("t", "ab\n\ncd");
    assert_eq!(s.lines(), vec![0..3, 3..4, 4..6]);
    let t = Source::new("t", "x\n");
    assert_eq!(t.lines(), vec![0..2, 2..2]);
    let e = Source::new("t", "");
    assert_eq!(e.lines(), vec![0..0]);
}

#[test]
fn find_lines_of_spans() {
    let s = Source::new("t", "ab\ncd\nef");
    let lines = s.lines();
    assert_eq!(line_index_of(&lines, 0), 0);
    assert_eq!(line_index_of(&lines, 2), 0);
    assert_eq!(line_index_of(&lines, 3), 1);
    assert_eq!(line_index_of(&lines, 8), 2);
    assert_eq!(find_lines(&lines, 1..2), 0..1);
    assert_eq!(find_lines(&lines, 1..4), 0..2);
    assert_eq!(find_lines(&lines, 3..6), 1..2);
    assert_eq!(find_lines(&lines, 4..4), 1..2);
    assert_eq!(find_lines(&lines, 0..8), 0..3);
}

#[test]
fn whitespace_is_the_white_space_property() {
    let listed: Vec<u32> = vec![
        0x09, 0x0A, 0x0B, 0x0C, 0x0D, 0x20, 0x85, 0xA0, 0x1680, 0x2000, 0x2001, 0x2002, 0x2003,
        0x2004, 0x2005, 0x2006, 0x2007, 0x2008, 0x2009, 0x200A, 0x2028, 0x2029, 0x202F, 0x205F,
        0x3000,
    ];
    for u in 0..=0x10FFFFu32 {
        if let Some(c) = char::from_u32(u) {
            assert_eq!(c.is_whitespace(), listed.contains(&u), "code point {:x}", u);
        }
    }
    // the cursor skips exactly these characters
    let s = Source::new("t", "\u{85}\u{a0}\u{200a}\u{2028}\u{200b}x");
    let mut c = s.cursor();
    assert_eq!(c.consume_whitespace(), 0..4);
    assert_eq!(c.peek(), '\u{200b}');
}

#[test]
fn position_lines_and_columns_with_unicode() {
    let s = Source::new("t", "é\n\nxyé\nz");
    let lines: Vec<(u32, u32)> = (0..=s.len()).map(|i| {
        let p = s.position_of(i);
        (p.line(), p.column())
    }).collect();
    assert_eq!(lines, vec![(0, 0), (0, 1), (1, 0), (2, 0), (2, 1), (2, 2), (2, 3), (3, 0), (3, 1)]);
    assert_eq!(s.position_of(4).byte_index(), 5);
}

#[test]
fn cursor_never_consumes_eof() {
    let s = Source::new("t", "a\0");
    let mut c = s.cursor_at(1);
    assert!(c.consume_if('\0'));
    assert_eq!(c.index(), 2);
    assert!(!c.consume_if('\0'));
    assert_eq!(c.index(), 2);
    match c.expect('\0') {
        Err(CursorParsingError::UnexpectedCharacter { position, expected, found }) => {
            assert_eq!((position, expected, found), (2, '\0', EOF));
        },
        _ => panic!("expected an error"),
    }
    assert_eq!(c.index(), 2);
}
