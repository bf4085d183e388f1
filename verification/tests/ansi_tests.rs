use vastc::ansi::{push_decimal, AnsiProperty, Attr, Color, FormatTarget};
use vastc::io::repeated_char;
use vastc::RESET;

#[test]
fn ansi_basic_color_codes() {
    assert_eq!(Color::Red.to_ansi(), "\x1B[31m");
    assert_eq!(Color::Black.to_ansi(), "\x1B[30m");
    assert_eq!(Color::Gray.to_ansi(), "\x1B[90m");
    assert_eq!(Color::BrightWhite.to_ansi(), "\x1B[97m");
    assert_eq!(Color::Reset.to_ansi(), "\x1B[39m");
}

#[test]
fn ansi_background_target_adds_ten() {
    let mut s = String::new();
    Color::Red.print_ansi(FormatTarget::Background, &mut s);
    assert_eq!(s, "\x1B[41m");
    let mut f = String::new();
    Color::Red.print_ansi(FormatTarget::Foreground, &mut f);
    assert_eq!(f, "\x1B[31m");
}

#[test]
fn ansi_print_appends() {
    let mut s = String::from("x");
    Color::Blue.print_ansi(FormatTarget::Plain, &mut s);
    Attr::Bold.print_ansi(FormatTarget::Plain, &mut s);
    assert_eq!(s, "x\x1B[34m\x1B[1m");
}

#[test]
fn ansi_true_and_fixed_colors() {
    let c = Color::lit(0x9d39cc);
    assert_eq!(c, Color::True(0x9d, 0x39, 0xcc));
    assert_eq!(c.to_ansi(), "\x1B[38;2;157;57;204m");
    assert_eq!(Color::lit(0xFF000000), Color::True(0, 0, 0));
    assert_eq!(Color::Fixed(208).to_ansi(), "\x1B[38;5;208m");
    // true and fixed colors print the same sequence for every target
    let mut s = String::new();
    Color::Fixed(7).print_ansi(FormatTarget::Background, &mut s);
    assert_eq!(s, "\x1B[38;5;7m");
    assert_eq!(c.try_to_true(), c);
    assert_eq!(Color::Red.try_to_true(), Color::Red);
}

#[test]
fn ansi_color_off_is_reset() {
    assert_eq!(Color::Red.off(), Color::Reset);
    assert_eq!(Color::True(1, 2, 3).off(), Color::Reset);
}

#[test]
fn ansi_attr_codes_and_off() {
    assert_eq!(Attr::Reset.to_ansi(), "\x1B[0m");
    assert_eq!(Attr::Bold.to_ansi(), "\x1B[1m");
    assert_eq!(Attr::Strike.to_ansi(), "\x1B[9m");
    assert_eq!(Attr::NoStrike.code(), 29);
    assert_eq!(Attr::NormalIntensity.code(), 22);
    assert_eq!(Attr::Bold.off(), Attr::NormalIntensity);
    assert_eq!(Attr::Faint.off(), Attr::NormalIntensity);
    assert_eq!(Attr::Italic.off(), Attr::NoItalic);
    assert_eq!(Attr::Underline.off(), Attr::NoUnderline);
    assert_eq!(Attr::Blink.off(), Attr::NoBlink);
    assert_eq!(Attr::Strike.off(), Attr::NoStrike);
    assert_eq!(Attr::NoItalic.off(), Attr::Reset);
    assert_eq!(Attr::Reset.off(), Attr::Reset);
}

#[test]
fn ansi_background_color_prints_its_color() {
    let b = Color::Green.bg();
    assert_eq!(b.to_ansi(), "\x1B[32m");
    let mut s = String::new();
    b.print_ansi(FormatTarget::Background, &mut s);
    assert_eq!(s, "\x1B[42m");
    assert_eq!(b.off().to_ansi(), "\x1B[39m");
}

#[test]
fn decimal_notation() {
    let mut s = String::new();
    push_decimal(&mut s, 0);
    assert_eq!(s, "0");
    let mut t = String::from("n=");
    push_decimal(&mut t, 1234567);
    assert_eq!(t, "n=1234567");
    let mut m = String::new();
    push_decimal(&mut m, u32::MAX);
    assert_eq!(m, "4294967295");
}

#[test]
fn reset_sequence() {
    assert_eq!(RESET, "\x1B[0;m");
}

#[test]
fn repeated_char_text() {
    assert_eq!(repeated_char('─', 3), "───");
    assert_eq!(repeated_char('x', 0), "");
    assert_eq!(repeated_char('a', 5).len(), 5);
}
