use vstd::prelude::*;
use vstd::string::StringExecFns;
use crate::chars::string_push;

verus! {

#[derive(Copy, Clone, Debug, PartialEq)]
pub enum FormatTarget {
    Foreground,
    Background,
    Plain,
}

// ---------------------------------------------------------------------------
// Decimal numbers
// ---------------------------------------------------------------------------

/// The decimal digit `d` (for `0 <= d < 10`).
pub open spec fn digit_char(d: nat) -> char {
    if d == 0 {
        '0'
    } else if d == 1 {
        '1'
    } else if d == 2 {
        '2'
    } else if d == 3 {
        '3'
    } else if d == 4 {
        '4'
    } else if d == 5 {
        '5'
    } else if d == 6 {
        '6'
    } else if d == 7 {
        '7'
    } else if d == 8 {
        '8'
    } else {
        '9'
    }
}

/// The decimal notation of `n`, without leading zeros.
pub open spec fn decimal(n: nat) -> Seq<char>
    decreases n,
{
    if n < 10 {
        seq![digit_char(n)]
    } else {
        decimal(n / 10).push(digit_char(n % 10))
    }
}

fn digit(d: u32) -> (c: char)
    requires
        d < 10,
    ensures
        c == digit_char(d as nat),
{
    match d {
        0 => '0',
        1 => '1',
        2 => '2',
        3 => '3',
        4 => '4',
        5 => '5',
        6 => '6',
        7 => '7',
        8 => '8',
        _ => '9',
    }
}

/// Appends the decimal notation of `n` to `out`.
pub fn push_decimal(out: &mut String, n: u32)
    ensures
        final(out)@ == old(out)@ + decimal(n as nat),
    decreases n,
{
    if n >= 10 {
        push_decimal(out, n / 10);
    }
    string_push(out, digit(n % 10));
    proof {
        if n < 10 {
            assert(old(out)@ + decimal(n as nat) =~= old(out)@.push(digit_char(n as nat)));
        } else {
            assert(old(out)@ + decimal(n as nat) =~= (old(out)@ + decimal((n / 10) as nat)).push(
                digit_char((n % 10) as nat),
            ));
        }
    }
}

// ---------------------------------------------------------------------------
// ANSI properties
// ---------------------------------------------------------------------------

/// The escape sequence `ESC [ <n> m`.
pub open spec fn sgr(n: nat) -> Seq<char> {
    "\x1B["@ + decimal(n) + "m"@
}

/// Common trait for all ANSI formatting properties.
pub trait AnsiProperty: Sized {
    /// The escape sequence that prints this property for `target`.
    spec fn spec_ansi(&self, target: FormatTarget) -> Seq<char>;

    /// The property that turns this one off.
    spec fn spec_off(&self) -> Self;

    fn print_ansi(&self, target: FormatTarget, out: &mut String)
        ensures
            final(out)@ == old(out)@ + self.spec_ansi(target),
    ;

    fn off(&self) -> (r: Self)
        ensures
            r == self.spec_off(),
    ;

    fn to_ansi(&self) -> (s: String)
        ensures
            s@ == self.spec_ansi(FormatTarget::Plain),
    {
        let mut s = String::new();
        self.print_ansi(FormatTarget::Plain, &mut s);
        assert(s@ =~= Seq::<char>::empty() + self.spec_ansi(FormatTarget::Plain));
        s
    }
}

/// Possible colorings within the terminal
#[derive(Copy, Clone, Debug, PartialEq)]
pub enum Color {
    True(u8, u8, u8),
    Fixed(u16),
    Black,
    Red,
    Green,
    Yellow,
    Blue,
    Magenta,
    Cyan,
    White,
    Gray,
    BrightRed,
    BrightGreen,
    BrightYellow,
    BrightBlue,
    BrightMagenta,
    BrightCyan,
    BrightWhite,
    Reset,
}

impl Color {
    /// The ANSI foreground code of a named color (the variant's position for
    /// `True` and `Fixed`).
    pub open spec fn spec_code(&self) -> u8 {
        match self {
            Color::True(_, _, _) => 0,
            Color::Fixed(_) => 1,
            Color::Black => 30,
            Color::Red => 31,
            Color::Green => 32,
            Color::Yellow => 33,
            Color::Blue => 34,
            Color::Magenta => 35,
            Color::Cyan => 36,
            Color::White => 37,
            Color::Gray => 90,
            Color::BrightRed => 91,
            Color::BrightGreen => 92,
            Color::BrightYellow => 93,
            Color::BrightBlue => 94,
            Color::BrightMagenta => 95,
            Color::BrightCyan => 96,
            Color::BrightWhite => 97,
            Color::Reset => 39,
        }
    }

    fn discriminant(&self) -> (r: u8)
        ensures
            r == self.spec_code(),
    {
        match self {
            Color::True(_, _, _) => 0,
            Color::Fixed(_) => 1,
            Color::Black => 30,
            Color::Red => 31,
            Color::Green => 32,
            Color::Yellow => 33,
            Color::Blue => 34,
            Color::Magenta => 35,
            Color::Cyan => 36,
            Color::White => 37,
            Color::Gray => 90,
            Color::BrightRed => 91,
            Color::BrightGreen => 92,
            Color::BrightYellow => 93,
            Color::BrightBlue => 94,
            Color::BrightMagenta => 95,
            Color::BrightCyan => 96,
            Color::BrightWhite => 97,
            Color::Reset => 39,
        }
    }

    /// The true color `0xRRGGBB`.
    pub fn lit(unit: u32) -> (c: Color)
        ensures
            c == Color::True(
                ((unit / 0x10000) % 0x100) as u8,
                ((unit / 0x100) % 0x100) as u8,
                (unit % 0x100) as u8,
            ),
    {
        let r = ((unit >> 16) & 0xFF) as u8;
        let g = ((unit >> 8) & 0xFF) as u8;
        let b = (unit & 0xFF) as u8;
        assert(((unit >> 16) & 0xFF) == (unit / 0x10000) % 0x100 && ((unit >> 8) & 0xFF) == (unit
            / 0x100) % 0x100 && (unit & 0xFF) == unit % 0x100) by (bit_vector);
        Color::True(r, g, b)
    }

    pub fn bg(&self) -> (b: BackgroundColor)
        ensures
            b.spec_inner() == *self,
    {
        BackgroundColor { inner: *self }
    }

    pub fn try_to_true(&self) -> (c: Color)
        ensures
            c == *self,
    {
        match self {
            Color::True(_, _, _) => *self,
            _ => *self,
        }
    }
}

impl AnsiProperty for Color {
    open spec fn spec_ansi(&self, target: FormatTarget) -> Seq<char> {
        match self {
            Color::Fixed(id) => "\x1B[38;5;"@ + decimal(id as nat) + "m"@,
            Color::True(r, g, b) => "\x1B[38;2;"@ + decimal(r as nat) + ";"@ + decimal(g as nat)
                + ";"@ + decimal(b as nat) + "m"@,
            _ => sgr(
                match target {
                    FormatTarget::Background => (self.spec_code() + 10) as nat,
                    _ => self.spec_code() as nat,
                },
            ),
        }
    }

    open spec fn spec_off(&self) -> Color {
        Color::Reset
    }

    fn print_ansi(&self, target: FormatTarget, out: &mut String) {
        let nr_scoped: u8 = match target {
            FormatTarget::Foreground | FormatTarget::Plain => self.discriminant(),
            FormatTarget::Background => self.discriminant() + 10,
        };
        match self {
            Color::Fixed(id) => {
                out.append("\x1B[38;5;");
                push_decimal(out, *id as u32);
                out.append("m");
            },
            Color::True(r, g, b) => {
                out.append("\x1B[38;2;");
                push_decimal(out, *r as u32);
                out.append(";");
                push_decimal(out, *g as u32);
                out.append(";");
                push_decimal(out, *b as u32);
                out.append("m");
            },
            _ => {
                out.append("\x1B[");
                push_decimal(out, nr_scoped as u32);
                out.append("m");
            },
        }
        proof {
            assert(final(out)@ =~= old(out)@ + self.spec_ansi(target));
        }
    }

    fn off(&self) -> (r: Color) {
        Color::Reset
    }
}

/// The escape sequence of a two-digit or three-digit command number.
proof fn lemma_sgr_digits(n: nat)
    requires
        10 <= n < 1000,
    ensures
        n < 100 ==> sgr(n) == seq!['\x1B', '[', digit_char(n / 10), digit_char(n % 10), 'm'],
        n >= 100 ==> sgr(n) == seq![
            '\x1B',
            '[',
            digit_char(n / 100),
            digit_char((n / 10) % 10),
            digit_char(n % 10),
            'm',
        ],
{
    reveal_strlit("\x1B[");
    reveal_strlit("m");
    reveal_with_fuel(decimal, 3);
    assert(sgr(n) =~= "\x1B["@ + decimal(n) + "m"@);
}

/// Each named color prints its standard SGR code: 30 to 37 for black, red,
/// green, yellow, blue, magenta, cyan and white, 90 to 97 for their bright
/// forms and gray, 39 for the default color; as a background, ten more.
#[verifier::rlimit(100)]
pub proof fn law_named_color_codes()
    ensures
        Color::Black.spec_ansi(FormatTarget::Plain) == seq!['\x1B', '[', '3', '0', 'm'],
        Color::Black.spec_ansi(FormatTarget::Background) == seq!['\x1B', '[', '4', '0', 'm'],
        Color::Red.spec_ansi(FormatTarget::Plain) == seq!['\x1B', '[', '3', '1', 'm'],
        Color::Red.spec_ansi(FormatTarget::Background) == seq!['\x1B', '[', '4', '1', 'm'],
        Color::Green.spec_ansi(FormatTarget::Plain) == seq!['\x1B', '[', '3', '2', 'm'],
        Color::Green.spec_ansi(FormatTarget::Background) == seq!['\x1B', '[', '4', '2', 'm'],
        Color::Yellow.spec_ansi(FormatTarget::Plain) == seq!['\x1B', '[', '3', '3', 'm'],
        Color::Yellow.spec_ansi(FormatTarget::Background) == seq!['\x1B', '[', '4', '3', 'm'],
        Color::Blue.spec_ansi(FormatTarget::Plain) == seq!['\x1B', '[', '3', '4', 'm'],
        Color::Blue.spec_ansi(FormatTarget::Background) == seq!['\x1B', '[', '4', '4', 'm'],
        Color::Magenta.spec_ansi(FormatTarget::Plain) == seq!['\x1B', '[', '3', '5', 'm'],
        Color::Magenta.spec_ansi(FormatTarget::Background) == seq!['\x1B', '[', '4', '5', 'm'],
        Color::Cyan.spec_ansi(FormatTarget::Plain) == seq!['\x1B', '[', '3', '6', 'm'],
        Color::Cyan.spec_ansi(FormatTarget::Background) == seq!['\x1B', '[', '4', '6', 'm'],
        Color::White.spec_ansi(FormatTarget::Plain) == seq!['\x1B', '[', '3', '7', 'm'],
        Color::White.spec_ansi(FormatTarget::Background) == seq!['\x1B', '[', '4', '7', 'm'],
        Color::Gray.spec_ansi(FormatTarget::Plain) == seq!['\x1B', '[', '9', '0', 'm'],
        Color::Gray.spec_ansi(FormatTarget::Background) == seq!['\x1B', '[', '1', '0', '0', 'm'],
        Color::BrightRed.spec_ansi(FormatTarget::Plain) == seq!['\x1B', '[', '9', '1', 'm'],
        Color::BrightRed.spec_ansi(FormatTarget::Background) == seq!['\x1B', '[', '1', '0', '1', 'm'],
        Color::BrightGreen.spec_ansi(FormatTarget::Plain) == seq!['\x1B', '[', '9', '2', 'm'],
        Color::BrightGreen.spec_ansi(FormatTarget::Background) == seq!['\x1B', '[', '1', '0', '2', 'm'],
        Color::BrightYellow.spec_ansi(FormatTarget::Plain) == seq!['\x1B', '[', '9', '3', 'm'],
        Color::BrightYellow.spec_ansi(FormatTarget::Background) == seq!['\x1B', '[', '1', '0', '3', 'm'],
        Color::BrightBlue.spec_ansi(FormatTarget::Plain) == seq!['\x1B', '[', '9', '4', 'm'],
        Color::BrightBlue.spec_ansi(FormatTarget::Background) == seq!['\x1B', '[', '1', '0', '4', 'm'],
        Color::BrightMagenta.spec_ansi(FormatTarget::Plain) == seq!['\x1B', '[', '9', '5', 'm'],
        Color::BrightMagenta.spec_ansi(FormatTarget::Background) == seq!['\x1B', '[', '1', '0', '5', 'm'],
        Color::BrightCyan.spec_ansi(FormatTarget::Plain) == seq!['\x1B', '[', '9', '6', 'm'],
        Color::BrightCyan.spec_ansi(FormatTarget::Background) == seq!['\x1B', '[', '1', '0', '6', 'm'],
        Color::BrightWhite.spec_ansi(FormatTarget::Plain) == seq!['\x1B', '[', '9', '7', 'm'],
        Color::BrightWhite.spec_ansi(FormatTarget::Background) == seq!['\x1B', '[', '1', '0', '7', 'm'],
        Color::Reset.spec_ansi(FormatTarget::Plain) == seq!['\x1B', '[', '3', '9', 'm'],
        Color::Reset.spec_ansi(FormatTarget::Background) == seq!['\x1B', '[', '4', '9', 'm'],
{
    lemma_sgr_digits(30);
    lemma_sgr_digits(40);
    lemma_sgr_digits(31);
    lemma_sgr_digits(41);
    lemma_sgr_digits(32);
    lemma_sgr_digits(42);
    lemma_sgr_digits(33);
    lemma_sgr_digits(43);
    lemma_sgr_digits(34);
    lemma_sgr_digits(44);
    lemma_sgr_digits(35);
    lemma_sgr_digits(45);
    lemma_sgr_digits(36);
    lemma_sgr_digits(46);
    lemma_sgr_digits(37);
    lemma_sgr_digits(47);
    lemma_sgr_digits(90);
    lemma_sgr_digits(100);
    lemma_sgr_digits(91);
    lemma_sgr_digits(101);
    lemma_sgr_digits(92);
    lemma_sgr_digits(102);
    lemma_sgr_digits(93);
    lemma_sgr_digits(103);
    lemma_sgr_digits(94);
    lemma_sgr_digits(104);
    lemma_sgr_digits(95);
    lemma_sgr_digits(105);
    lemma_sgr_digits(96);
    lemma_sgr_digits(106);
    lemma_sgr_digits(97);
    lemma_sgr_digits(107);
    lemma_sgr_digits(39);
    lemma_sgr_digits(49);
}

/// Each attribute prints its standard SGR code: 0 reset, 1 bold, 2 faint,
/// 3 italic, 4 underline, 5 blink, 9 strike, and 22 to 25 and 29 to turn
/// them off.
pub proof fn law_attribute_codes()
    ensures
        Attr::Reset.spec_ansi(FormatTarget::Plain) == seq!['\x1B', '[', '0', 'm'],
        Attr::Bold.spec_ansi(FormatTarget::Plain) == seq!['\x1B', '[', '1', 'm'],
        Attr::Faint.spec_ansi(FormatTarget::Plain) == seq!['\x1B', '[', '2', 'm'],
        Attr::Italic.spec_ansi(FormatTarget::Plain) == seq!['\x1B', '[', '3', 'm'],
        Attr::Underline.spec_ansi(FormatTarget::Plain) == seq!['\x1B', '[', '4', 'm'],
        Attr::Blink.spec_ansi(FormatTarget::Plain) == seq!['\x1B', '[', '5', 'm'],
        Attr::Strike.spec_ansi(FormatTarget::Plain) == seq!['\x1B', '[', '9', 'm'],
        Attr::NormalIntensity.spec_ansi(FormatTarget::Plain) == seq!['\x1B', '[', '2', '2', 'm'],
        Attr::NoItalic.spec_ansi(FormatTarget::Plain) == seq!['\x1B', '[', '2', '3', 'm'],
        Attr::NoUnderline.spec_ansi(FormatTarget::Plain) == seq!['\x1B', '[', '2', '4', 'm'],
        Attr::NoBlink.spec_ansi(FormatTarget::Plain) == seq!['\x1B', '[', '2', '5', 'm'],
        Attr::NoStrike.spec_ansi(FormatTarget::Plain) == seq!['\x1B', '[', '2', '9', 'm'],
{
    reveal_strlit("\x1B[");
    reveal_strlit("m");
    lemma_sgr_digits(22);
    lemma_sgr_digits(23);
    lemma_sgr_digits(24);
    lemma_sgr_digits(25);
    lemma_sgr_digits(29);
    assert(sgr(0) =~= seq!['\x1B', '[', '0', 'm']);
    assert(sgr(1) =~= seq!['\x1B', '[', '1', 'm']);
    assert(sgr(2) =~= seq!['\x1B', '[', '2', 'm']);
    assert(sgr(3) =~= seq!['\x1B', '[', '3', 'm']);
    assert(sgr(4) =~= seq!['\x1B', '[', '4', 'm']);
    assert(sgr(5) =~= seq!['\x1B', '[', '5', 'm']);
    assert(sgr(9) =~= seq!['\x1B', '[', '9', 'm']);
}

/// A color prints the same sequence as a foreground as it does plainly.
pub proof fn law_foreground_is_plain(c: Color)
    ensures
        c.spec_ansi(FormatTarget::Foreground) == c.spec_ansi(FormatTarget::Plain),
{
}

/// Possible attributes to be applied within the terminal
#[derive(Copy, Clone, Debug, PartialEq)]
pub enum Attr {
    /// Reset *all* formatting from this point. ANSI command 0.
    Reset,
    Bold,
    Faint,
    Italic,
    Underline,
    Blink,
    Strike,
    /// Neither bold nor faint.
    NormalIntensity,
    NoItalic,
    NoUnderline,
    NoBlink,
    NoStrike,
}

impl Attr {
    /// The ANSI command number of the attribute.
    pub open spec fn spec_code(&self) -> u32 {
        match self {
            Attr::Reset => 0,
            Attr::Bold => 1,
            Attr::Faint => 2,
            Attr::Italic => 3,
            Attr::Underline => 4,
            Attr::Blink => 5,
            Attr::Strike => 9,
            Attr::NormalIntensity => 22,
            Attr::NoItalic => 23,
            Attr::NoUnderline => 24,
            Attr::NoBlink => 25,
            Attr::NoStrike => 29,
        }
    }

    /// The ANSI command number of the attribute.
    pub fn code(&self) -> (r: u32)
        ensures
            r == self.spec_code(),
    {
        match self {
            Attr::Reset => 0,
            Attr::Bold => 1,
            Attr::Faint => 2,
            Attr::Italic => 3,
            Attr::Underline => 4,
            Attr::Blink => 5,
            Attr::Strike => 9,
            Attr::NormalIntensity => 22,
            Attr::NoItalic => 23,
            Attr::NoUnderline => 24,
            Attr::NoBlink => 25,
            Attr::NoStrike => 29,
        }
    }
}

impl AnsiProperty for Attr {
    open spec fn spec_ansi(&self, target: FormatTarget) -> Seq<char> {
        sgr(self.spec_code() as nat)
    }

    open spec fn spec_off(&self) -> Attr {
        match self {
            Attr::Bold => Attr::NormalIntensity,
            Attr::Faint => Attr::NormalIntensity,
            Attr::Italic => Attr::NoItalic,
            Attr::Underline => Attr::NoUnderline,
            Attr::Strike => Attr::NoStrike,
            Attr::Blink => Attr::NoBlink,
            _ => Attr::Reset,
        }
    }

    fn print_ansi(&self, _target: FormatTarget, out: &mut String) {
        out.append("\x1B[");
        push_decimal(out, self.code());
        out.append("m");
        proof {
            assert(final(out)@ =~= old(out)@ + self.spec_ansi(_target));
        }
    }

    fn off(&self) -> (r: Attr) {
        match self {
            Attr::Bold => Attr::NormalIntensity,
            Attr::Faint => Attr::NormalIntensity,
            Attr::Italic => Attr::NoItalic,
            Attr::Underline => Attr::NoUnderline,
            Attr::Strike => Attr::NoStrike,
            Attr::Blink => Attr::NoBlink,
            _ => Attr::Reset,
        }
    }
}

/// A color used as a background.
pub struct BackgroundColor {
    inner: Color,
}

impl BackgroundColor {
    pub closed spec fn spec_inner(&self) -> Color {
        self.inner
    }
}

impl AnsiProperty for BackgroundColor {
    closed spec fn spec_ansi(&self, target: FormatTarget) -> Seq<char> {
        self.inner.spec_ansi(target)
    }

    closed spec fn spec_off(&self) -> BackgroundColor {
        BackgroundColor { inner: Color::Reset }
    }

    fn print_ansi(&self, target: FormatTarget, out: &mut String) {
        self.inner.print_ansi(target, out)
    }

    fn off(&self) -> (r: BackgroundColor) {
        BackgroundColor { inner: Color::Reset }
    }
}

impl BackgroundColor {
    /// The escape sequence of the background color is its color's.
    pub proof fn law_background_prints_its_color(&self, target: FormatTarget)
        ensures
            self.spec_ansi(target) == self.spec_inner().spec_ansi(target),
            self.spec_off().spec_inner() == Color::Reset,
    {
    }
}

} // verus!
