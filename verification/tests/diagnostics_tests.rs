use vastc::ansi::{Attr, Color};
use vastc::diagnostics::{
    char_styles_for_token, column_distance, default_true_color, diagnostic_window, render_line, summary_line,
    window_columns, DiagnosticDetails, DiagnosticType, GenericErrno, StyledChar,
    UnitDiagnosticContext,
};
use vastc::parser::lexer::Lexer;
use vastc::parser::token::{Errno, Token, TokenType};
use vastc::source::Source;

fn details(ty: DiagnosticType, start: u32, end: u32) -> DiagnosticDetails {
    DiagnosticDetails {
        ty,
        primary_location: start..end,
        errno: GenericErrno { domain: "T", numeral: 1 },
        msg: "message",
    }
}

fn cell(c: &StyledChar) -> (char, Color, Attr, u32) {
    (c.ch, c.color, c.attr, c.distance)
}

#[test]
fn diagnostic_type_presentation() {
    assert_eq!(DiagnosticType::Error.color(), Color::Red);
    assert_eq!(DiagnosticType::Warn.color(), Color::Yellow);
    assert_eq!(DiagnosticType::Note.color(), Color::Blue);
    assert_eq!(DiagnosticType::Error.icon(), '■');
    assert_eq!(DiagnosticType::Warn.icon(), '▲');
    assert_eq!(DiagnosticType::Note.icon(), '◆');
    assert_eq!(DiagnosticType::Error.prefix(), "error: ");
    assert_eq!(DiagnosticType::Warn.prefix(), " warn: ");
    assert_eq!(DiagnosticType::Note.prefix(), " note: ");
}

#[test]
fn token_styles() {
    let t = |ty: TokenType| Token { ty, location: None, flags: 0 };
    assert_eq!(default_true_color(), Color::True(0xDD, 0xDD, 0xDD));
    assert_eq!(char_styles_for_token(&t(TokenType::Let)), (Color::True(0x9d, 0x39, 0xcc), Attr::Reset));
    assert_eq!(char_styles_for_token(&t(TokenType::Error(Errno::IllegalCharacter, "m"))), (Color::Red, Attr::Faint));
    assert_eq!(char_styles_for_token(&t(TokenType::BoolLiteral(false))), (Color::True(0xb6, 0x10, 0xe8), Attr::Italic));
    assert_eq!(char_styles_for_token(&t(TokenType::CharLiteral('c'))), (Color::True(0x7c, 0xf0, 0x6e), Attr::Reset));
    assert_eq!(char_styles_for_token(&t(TokenType::StringLiteral("s".to_string()))), (Color::True(0x61, 0xdb, 0x53), Attr::Reset));
    assert_eq!(char_styles_for_token(&t(TokenType::Identifier)), (default_true_color(), Attr::Reset));
    assert_eq!(char_styles_for_token(&t(TokenType::If)), (default_true_color(), Attr::Reset));
}

#[test]
fn window_columns_around_segment() {
    let text: String = std::iter::repeat('a').take(300).collect();
    let source = Source::new("t", &text);
    assert_eq!(window_columns(&source.as_segment(30..40)), (5, 65, 85));
    assert_eq!(window_columns(&source.as_segment(2..4)), (0, 29, 85));
    assert_eq!(window_columns(&source.as_segment(100..200)), (75, 225, 175));
    assert_eq!(window_columns(&source.as_segment(200..100)), (75, 225, 175));
}

#[test]
fn column_distance_outside_span() {
    assert_eq!(column_distance(&(5..8), 2), 3);
    assert_eq!(column_distance(&(5..8), 5), 0);
    assert_eq!(column_distance(&(5..8), 8), 0);
    assert_eq!(column_distance(&(5..8), 10), 2);
}

#[test]
fn render_line_without_lexer() {
    let source = Source::new("t", "abcdef\n");
    let ctx = UnitDiagnosticContext::new(&source);
    let det = details(DiagnosticType::Warn, 2, 3);
    let cells: Vec<(char, Color, Attr, u32)> = render_line(&ctx, &det, &(2..3), 0..7, 0, 30).iter().map(cell).collect();
    let d = default_true_color();
    // the last character of the line is not shown
    assert_eq!(cells, vec![
        ('a', d, Attr::Reset, 2),
        ('b', d, Attr::Reset, 1),
        ('c', Color::Yellow, Attr::Bold, 0),
        ('d', d, Attr::Reset, 0),
        ('e', d, Attr::Reset, 1),
    ]);
    // from column 3 to column 4 only
    let part: Vec<(char, Color, Attr, u32)> = render_line(&ctx, &det, &(2..3), 0..7, 3, 4).iter().map(cell).collect();
    assert_eq!(part, vec![('d', d, Attr::Reset, 0)]);
    assert_eq!(render_line(&ctx, &det, &(2..3), 0..7, 9, 30).len(), 0);
}

#[test]
fn render_line_with_lexer_styles() {
    let source = Source::new("t", "let x\n");
    let mut lexer = Lexer::new(&source);
    lexer.tokenize();
    let mut ctx = UnitDiagnosticContext::new(&source);
    ctx.with_lexer(&lexer);
    let det = details(DiagnosticType::Error, 4, 5);
    let kw = Color::True(0x9d, 0x39, 0xcc);
    let d = default_true_color();
    let cells: Vec<(char, Color, Attr, u32)> = render_line(&ctx, &det, &(4..5), 0..6, 0, 30).iter().map(cell).collect();
    assert_eq!(cells, vec![
        ('l', kw, Attr::Reset, 4),
        ('e', kw, Attr::Reset, 3),
        ('t', kw, Attr::Reset, 2),
        (' ', d, Attr::Reset, 1),
    ]);
}

#[test]
fn diagnostic_window_single_line() {
    let source = Source::new("t", "ab cd\nxy\n");
    let mut lexer = Lexer::new(&source);
    lexer.tokenize();
    let mut ctx = UnitDiagnosticContext::new(&source);
    ctx.with_lexer(&lexer);
    let det = details(DiagnosticType::Error, 3, 5);
    let w = diagnostic_window(&ctx, &det);
    assert_eq!(w.first_line_number, 1);
    assert_eq!(w.rect_width, 85);
    assert_eq!(w.underline, Some(3..5));
    assert_eq!(w.lines.len(), 1);
    assert_eq!(w.lines[0].number, 1);
    let d = default_true_color();
    let cells: Vec<(char, Color, Attr, u32)> = w.lines[0].cells.as_ref().unwrap().iter().map(cell).collect();
    assert_eq!(cells, vec![
        ('a', d, Attr::Reset, 3),
        ('b', d, Attr::Reset, 2),
        (' ', d, Attr::Reset, 1),
        ('c', Color::Red, Attr::Bold, 0),
    ]);
}

#[test]
fn diagnostic_window_several_lines() {
    let source = Source::new("t", "a\n\nbc\n");
    let ctx = UnitDiagnosticContext::new(&source);
    let det = details(DiagnosticType::Note, 0, 5);
    let w = diagnostic_window(&ctx, &det);
    assert_eq!(w.first_line_number, 1);
    // the primary location runs from line 1, column 0 to line 3, column 2
    assert_eq!(w.underline, Some(0..2));
    assert_eq!(w.lines.len(), 3);
    let numbers: Vec<usize> = w.lines.iter().map(|l| l.number).collect();
    assert_eq!(numbers, vec![1, 2, 3]);
    assert_eq!(w.lines[0].cells.as_ref().map(|v| v.len()), Some(0));
    assert!(w.lines[1].cells.is_none());
    let cells: Vec<(char, Color, Attr, u32)> = w.lines[2].cells.as_ref().unwrap().iter().map(cell).collect();
    assert_eq!(cells, vec![('b', Color::Blue, Attr::Bold, 0)]);
}

#[test]
fn diagnostic_window_on_empty_line_has_no_underline() {
    let source = Source::new("t", "ab\n\ncd");
    let ctx = UnitDiagnosticContext::new(&source);
    let det = details(DiagnosticType::Error, 3, 3);
    let w = diagnostic_window(&ctx, &det);
    assert_eq!(w.first_line_number, 2);
    assert_eq!(w.lines.len(), 1);
    assert!(w.lines[0].cells.is_none());
    assert_eq!(w.underline, None);
}

#[test]
fn diagnostic_details_clone() {
    let det = details(DiagnosticType::Warn, 1, 2);
    assert_eq!(det.clone(), det);
}

#[test]
fn summary_line_text() {
    let det = DiagnosticDetails {
        ty: DiagnosticType::Error,
        primary_location: 0..1,
        errno: GenericErrno { domain: "T", numeral: 3 },
        msg: "bad char",
    };
    assert_eq!(
        summary_line(&det),
        "\x1B[1m\x1B[31m■ error: \x1B[22m\x1B[31mbad char\x1B[90m • \x1B[1m\x1B[31mT0003\x1B[0m"
    );
    let warn = DiagnosticDetails {
        ty: DiagnosticType::Warn,
        primary_location: 2..5,
        errno: GenericErrno { domain: "H", numeral: 123456 },
        msg: "m",
    };
    assert!(summary_line(&warn).ends_with("\x1B[33mH123456\x1B[0m"));
    assert!(summary_line(&warn).starts_with("\x1B[1m\x1B[33m▲  warn: "));
}

#[test]
fn diagnostic_window_uses_columns_on_later_lines() {
    let source = Source::new("t", "first\nxyzabc\n");
    let ctx = UnitDiagnosticContext::new(&source);
    let det = details(DiagnosticType::Error, 9, 10);
    let w = diagnostic_window(&ctx, &det);
    assert_eq!(w.first_line_number, 2);
    // index 9 is column 3 of the second line
    assert_eq!(w.underline, Some(3..4));
    let d = default_true_color();
    let cells: Vec<(char, Color, Attr, u32)> = w.lines[0].cells.as_ref().unwrap().iter().map(cell).collect();
    assert_eq!(cells, vec![
        ('x', d, Attr::Reset, 3),
        ('y', d, Attr::Reset, 2),
        ('z', d, Attr::Reset, 1),
        ('a', Color::Red, Attr::Bold, 0),
        ('b', d, Attr::Reset, 0),
    ]);
}
