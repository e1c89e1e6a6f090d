//! Colors and the positioned style directives of a grid row.
use vstd::prelude::*;
use crate::text::{chars_of, string_of, extend_chars};

verus! {

/// The character of the decimal digit `d`.
pub open spec fn digit(d: nat) -> char {
    seq!['0', '1', '2', '3', '4', '5', '6', '7', '8', '9'][d as int]
}

/// Decimal notation of `n`, without leading zeros.
pub open spec fn decimal(n: nat) -> Seq<char>
    decreases n,
{
    if n < 10 {
        seq![digit(n)]
    } else {
        decimal(n / 10).push(digit(n % 10))
    }
}

/// A control sequence introducer followed by `body`: `ESC [ body`.
pub open spec fn csi(body: Seq<char>) -> Seq<char> {
    seq!['\x1b', '['] + body
}

fn digit_char(d: u8) -> (r: char)
    requires
        d < 10,
    ensures
        r == digit(d as nat),
{
    match d {
        0 => '0',
        1 => '1',
        2 => '2',
        3 => '3',
        4 => '4',
        5 => '5',
        6 => '6',
        7 => '7',
        8 => '8',
        _ => '9',
    }
}

fn push_decimal(out: &mut Vec<char>, n: u8)
    ensures
        final(out)@ == old(out)@ + decimal(n as nat),
{
    reveal_with_fuel(decimal, 3);
    if n >= 100 {
        out.push(digit_char(n / 100));
        out.push(digit_char(n / 10 % 10));
        assert(decimal((n / 10) as nat) =~= seq![digit((n / 100) as nat), digit((n / 10 % 10) as nat)]);
    } else if n >= 10 {
        out.push(digit_char(n / 10));
    }
    out.push(digit_char(n % 10));
    assert(final(out)@ =~= old(out)@ + decimal(n as nat));
}

/// The color part of a select-graphic-rendition sequence: `2;r;g;bm` for a true color,
/// `5;nm` for a palette entry.
#[derive(Clone)]
pub struct Color {
    pub code: String,
}

/// Code of a 24-bit color.
pub open spec fn rgb_code(r: nat, g: nat, b: nat) -> Seq<char> {
    seq!['2', ';'] + decimal(r) + seq![';'] + decimal(g) + seq![';'] + decimal(b) + seq!['m']
}

/// Code of an entry of the 256-color palette.
pub open spec fn palette_code(n: nat) -> Seq<char> {
    seq!['5', ';'] + decimal(n) + seq!['m']
}

impl Color {
    pub fn from_rgb(r: u8, g: u8, b: u8) -> (c: Self)
        ensures
            c.code@ == rgb_code(r as nat, g as nat, b as nat),
    {
        let mut cs: Vec<char> = vec!['2', ';'];
        push_decimal(&mut cs, r);
        cs.push(';');
        push_decimal(&mut cs, g);
        cs.push(';');
        push_decimal(&mut cs, b);
        cs.push('m');
        assert(cs@ =~= rgb_code(r as nat, g as nat, b as nat));
        Color { code: string_of(cs.as_slice()) }
    }

    fn from_palette(n: u8) -> (c: Self)
        ensures
            c.code@ == palette_code(n as nat),
    {
        let mut cs: Vec<char> = vec!['5', ';'];
        push_decimal(&mut cs, n);
        cs.push('m');
        assert(cs@ =~= palette_code(n as nat));
        Color { code: string_of(cs.as_slice()) }
    }

    /// A color of the 6x6x6 cube of the 256-color palette.
    pub fn from_rgb_8bit(r: u8, g: u8, b: u8) -> (c: Self)
        requires
            r <= 5,
            g <= 5,
            b <= 5,
        ensures
            c.code@ == palette_code((16 + 36 * r + 6 * g + b) as nat),
    {
        Color::from_palette(16 + r * 36 + g * 6 + b)
    }

    /// One of the 24 grays of the 256-color palette.
    pub fn gray(brightness: u8) -> (c: Self)
        requires
            brightness <= 23,
        ensures
            c.code@ == palette_code((232 + brightness) as nat),
    {
        Color::from_palette(232 + brightness)
    }

    /// The same color.
    pub(crate) fn copied(&self) -> (c: Self)
        ensures
            c.code@ == self.code@,
    {
        Color { code: self.code.clone() }
    }

    pub fn to_front_seq(&self) -> (s: String)
        ensures
            s@ == csi(seq!['3', '8', ';'] + self.code@),
    {
        let mut cs: Vec<char> = vec!['\x1b', '[', '3', '8', ';'];
        extend_chars(&mut cs, &chars_of(self.code.as_str()));
        assert(cs@ =~= csi(seq!['3', '8', ';'] + self.code@));
        string_of(cs.as_slice())
    }

    pub fn to_back_seq(&self) -> (s: String)
        ensures
            s@ == csi(seq!['4', '8', ';'] + self.code@),
    {
        let mut cs: Vec<char> = vec!['\x1b', '[', '4', '8', ';'];
        extend_chars(&mut cs, &chars_of(self.code.as_str()));
        assert(cs@ =~= csi(seq!['4', '8', ';'] + self.code@));
        string_of(cs.as_slice())
    }
}

#[derive(Clone, Copy, PartialEq, Eq, Structural, Debug)]
pub enum EffectType {
    Reset,
    Bold,
    Thin,
    Italic,
    UnderLine,
    Bling,
    FastBling,
    Invert,
    Hide,
    Cancel,
    FrontColor,
    BackColor,
}

/// What a style directive is, mathematically: its kind, its column and the
/// escape sequence it emits.
pub struct Style {
    pub kind: EffectType,
    pub pos: nat,
    pub code: Seq<char>,
}

/// A style directive placed at column `pos` of a row.
#[derive(Clone)]
pub struct Effect {
    pub kind: EffectType,
    pub pos: usize,
    pub seq: String,
}

impl View for Effect {
    type V = Style;

    open spec fn view(&self) -> Style {
        Style { kind: self.kind, pos: self.pos as nat, code: self.seq@ }
    }
}

/// The escape sequence of a plain attribute with parameter digit `d`: `ESC [ d m`.
pub open spec fn attr_code(d: nat) -> Seq<char> {
    csi(seq![digit(d), 'm'])
}

/// The styles of a list of effects.
pub open spec fn styles(v: Seq<Effect>) -> Seq<Style> {
    v.map_values(|e: Effect| e@)
}

impl Effect {
    fn attribute(kind: EffectType, d: u8, pos: usize) -> (e: Self)
        requires
            d < 10,
        ensures
            e@ == (Style { kind, pos: pos as nat, code: attr_code(d as nat) }),
    {
        let cs: Vec<char> = vec!['\x1b', '[', digit_char(d), 'm'];
        assert(cs@ =~= attr_code(d as nat));
        Effect { kind, pos, seq: string_of(cs.as_slice()) }
    }

    /// The same directive, moved to column `pos`.
    pub fn at(&self, pos: usize) -> (e: Self)
        ensures
            e@ == (Style { pos: pos as nat, ..self@ }),
    {
        Effect { kind: self.kind, pos, seq: self.seq.clone() }
    }

    pub fn reset(pos: usize) -> (e: Self)
        ensures
            e@ == (Style { kind: EffectType::Reset, pos: pos as nat, code: attr_code(0) }),
    {
        Effect::attribute(EffectType::Reset, 0, pos)
    }

    pub fn bold(pos: usize) -> (e: Self)
        ensures
            e@ == (Style { kind: EffectType::Bold, pos: pos as nat, code: attr_code(1) }),
    {
        Effect::attribute(EffectType::Bold, 1, pos)
    }

    pub fn thin(pos: usize) -> (e: Self)
        ensures
            e@ == (Style { kind: EffectType::Thin, pos: pos as nat, code: attr_code(2) }),
    {
        Effect::attribute(EffectType::Thin, 2, pos)
    }

    pub fn italic(pos: usize) -> (e: Self)
        ensures
            e@ == (Style { kind: EffectType::Italic, pos: pos as nat, code: attr_code(3) }),
    {
        Effect::attribute(EffectType::Italic, 3, pos)
    }

    pub fn under_line(pos: usize) -> (e: Self)
        ensures
            e@ == (Style { kind: EffectType::UnderLine, pos: pos as nat, code: attr_code(4) }),
    {
        Effect::attribute(EffectType::UnderLine, 4, pos)
    }

    pub fn bling(pos: usize) -> (e: Self)
        ensures
            e@ == (Style { kind: EffectType::Bling, pos: pos as nat, code: attr_code(5) }),
    {
        Effect::attribute(EffectType::Bling, 5, pos)
    }

    pub fn fast_bling(pos: usize) -> (e: Self)
        ensures
            e@ == (Style { kind: EffectType::FastBling, pos: pos as nat, code: attr_code(6) }),
    {
        Effect::attribute(EffectType::FastBling, 6, pos)
    }

    pub fn invert(pos: usize) -> (e: Self)
        ensures
            e@ == (Style { kind: EffectType::Invert, pos: pos as nat, code: attr_code(7) }),
    {
        Effect::attribute(EffectType::Invert, 7, pos)
    }

    pub fn conceal(pos: usize) -> (e: Self)
        ensures
            e@ == (Style { kind: EffectType::Hide, pos: pos as nat, code: attr_code(8) }),
    {
        Effect::attribute(EffectType::Hide, 8, pos)
    }

    pub fn cancel(pos: usize) -> (e: Self)
        ensures
            e@ == (Style { kind: EffectType::Cancel, pos: pos as nat, code: attr_code(9) }),
    {
        Effect::attribute(EffectType::Cancel, 9, pos)
    }

    pub fn front_color(color: Color, pos: usize) -> (e: Self)
        ensures
            e@ == (Style {
                kind: EffectType::FrontColor,
                pos: pos as nat,
                code: csi(seq!['3', '8', ';'] + color.code@),
            }),
    {
        Effect { kind: EffectType::FrontColor, pos, seq: color.to_front_seq() }
    }

    pub fn back_color(color: Color, pos: usize) -> (e: Self)
        ensures
            e@ == (Style {
                kind: EffectType::BackColor,
                pos: pos as nat,
                code: csi(seq!['4', '8', ';'] + color.code@),
            }),
    {
        Effect { kind: EffectType::BackColor, pos, seq: color.to_back_seq() }
    }

    /// The escape sequence this directive emits.
    pub fn to_string(&self) -> (s: String)
        ensures
            s@ == self@.code,
    {
        self.seq.clone()
    }

    /// The characters of the escape sequence this directive emits.
    pub fn code_chars(&self) -> (s: Vec<char>)
        ensures
            s@ == self@.code,
    {
        chars_of(self.seq.as_str())
    }
}

} // verus!
