//! Text styles: the sixteen legacy colors, the five style flags, and how a
//! component's style follows from its parent's.

use crate::json::{get, member, Members, Value};
use crate::text::{
    all_digits, chars_of, digit_value, digits_value, lemma_digits_value_bound, parse_unsigned,
    power, same_text,
};
use vstd::prelude::*;

verus! {

/// The 16 legacy colors in code order (`§0`…`§f`), with their RGB values.
pub const COLORS: [(char, u32); 16] = [
    ('0', 0x000000),  // black
    ('1', 0x0000AA),  // dark_blue
    ('2', 0x00AA00),  // dark_green
    ('3', 0x00AAAA),  // dark_aqua
    ('4', 0xAA0000),  // dark_red
    ('5', 0xAA00AA),  // dark_purple
    ('6', 0xFFAA00),  // gold
    ('7', 0xAAAAAA),  // gray
    ('8', 0x555555),  // dark_gray
    ('9', 0x5555FF),  // blue
    ('a', 0x55FF55),  // green
    ('b', 0x55FFFF),  // aqua
    ('c', 0xFF5555),  // red
    ('d', 0xFF55FF),  // light_purple
    ('e', 0xFFFF55),  // yellow
    ('f', 0xFFFFFF),  // white
];

/// A style with inheritance applied: `color` is an index into [`COLORS`]
/// (`None` is the client's default), the flags are concrete.
#[derive(Debug, Clone, Copy, PartialEq, Eq, Structural)]
pub struct Style {
    pub color: Option<usize>,
    pub bold: bool,
    pub italic: bool,
    pub underlined: bool,
    pub strikethrough: bool,
    pub obfuscated: bool,
}

/// The style of a client that has read no codes.
pub open spec fn plain_style() -> Style {
    Style {
        color: None,
        bold: false,
        italic: false,
        underlined: false,
        strikethrough: false,
        obfuscated: false,
    }
}

impl Default for Style {
    /// No color, no flags.
    fn default() -> (res: Self)
        ensures
            res == plain_style(),
    {
        Style {
            color: None,
            bold: false,
            italic: false,
            underlined: false,
            strikethrough: false,
            obfuscated: false,
        }
    }
}

/// The flag an object has under `key`: a JSON boolean, or nothing.
pub open spec fn flag_of(members: Seq<(String, Value)>, key: Seq<char>) -> Option<bool> {
    match member(members, key) {
        Some(Value::Bool(value)) => Some(value),
        _ => None,
    }
}

/// The flag under `key` where there is one, else the inherited one.
pub open spec fn flag_or(members: Seq<(String, Value)>, key: Seq<char>, inherited: bool) -> bool {
    match flag_of(members, key) {
        Some(value) => value,
        None => inherited,
    }
}

/// What an object's `color` makes of the inherited style: `"reset"` clears all
/// of it, a known color replaces the color, anything else changes nothing.
pub open spec fn recolored(parent: Style, members: Seq<(String, Value)>) -> Style {
    match member(members, "color"@) {
        Some(Value::String(name)) => if name@ == "reset"@ {
            plain_style()
        } else {
            match color_of(name@) {
                Some(index) => Style { color: Some(index as usize), ..parent },
                None => parent,
            }
        },
        _ => parent,
    }
}

/// The style an object's own content has.
pub open spec fn resolved(parent: Style, members: Seq<(String, Value)>) -> Style {
    let base = recolored(parent, members);
    Style {
        color: base.color,
        bold: flag_or(members, "bold"@, base.bold),
        italic: flag_or(members, "italic"@, base.italic),
        underlined: flag_or(members, "underlined"@, base.underlined),
        strikethrough: flag_or(members, "strikethrough"@, base.strikethrough),
        obfuscated: flag_or(members, "obfuscated"@, base.obfuscated),
    }
}

/// Resolving keeps the color among the sixteen.
pub proof fn lemma_resolved_wf(parent: Style, members: Seq<(String, Value)>)
    requires
        parent.wf(),
    ensures
        resolved(parent, members).wf(),
{
    if let Some(Value::String(name)) = member(members, "color"@) {
        if named_color(name@) is None {
            if let Some(rgb) = hex_rgb(name@) {
                lemma_nearest_exists(rgb, 15);
            }
        }
    }
}

/// What a color text resolves to is one of the sixteen, the nearest for a hex
/// color.
pub proof fn lemma_color_exists(name: Seq<char>)
    ensures
        color_of(name) matches Some(index) ==> index < 16,
        hex_rgb(name) matches Some(rgb) ==> is_nearest(rgb, nearest(rgb)),
{
    if let Some(rgb) = hex_rgb(name) {
        lemma_nearest_exists(rgb, 15);
    }
}

/// Some color among the first `last + 1` is the first of the nearest of them.
proof fn lemma_nearest_exists(rgb: nat, last: nat) -> (index: nat)
    requires
        last < 16,
    ensures
        index <= last,
        forall|j: nat| j <= last ==> color_distance(rgb, index) <= #[trigger] color_distance(rgb, j),
        forall|j: nat| j < index ==> color_distance(rgb, index) < #[trigger] color_distance(rgb, j),
        last == 15 ==> is_nearest(rgb, index) && nearest(rgb) == index,
    decreases last,
{
    let found = if last == 0 {
        0
    } else {
        let before = lemma_nearest_exists(rgb, (last - 1) as nat);
        if color_distance(rgb, last) < color_distance(rgb, before) {
            last
        } else {
            before
        }
    };
    if last == 15 {
        lemma_nearest_unique(rgb, found);
    }
    found
}

impl Style {
    /// The color, where there is one, is one of the sixteen.
    pub open spec fn wf(self) -> bool {
        self.color matches Some(index) ==> index < 16
    }

    /// Everything on here is on in `other`, a color of some kind included.
    pub open spec fn covered_by(self, other: Self) -> bool {
        &&& self.color is Some ==> other.color is Some
        &&& self.bold ==> other.bold
        &&& self.italic ==> other.italic
        &&& self.underlined ==> other.underlined
        &&& self.strikethrough ==> other.strikethrough
        &&& self.obfuscated ==> other.obfuscated
    }

    /// Resolve a component object's style against its parent's.
    ///
    /// `"color": "reset"` clears the inherited color and flags. Values that are
    /// not understood (unknown color names, flags that are no booleans) are
    /// ignored and the inherited value carries over.
    pub fn resolve(parent: Self, obj: &Members) -> (res: Self)
        requires
            parent.wf(),
        ensures
            res == resolved(parent, obj@),
            res.wf(),
    {
        let mut style = parent;
        match get(obj, "color") {
            Some(Value::String(name)) => {
                if same_text(name.as_str(), "reset") {
                    style = Style::default();
                } else if let Some(index) = color_index(name.as_str()) {
                    style.color = Some(index);
                }
            },
            _ => {},
        }
        if let Some(value) = flag(obj, "bold") {
            style.bold = value;
        }
        if let Some(value) = flag(obj, "italic") {
            style.italic = value;
        }
        if let Some(value) = flag(obj, "underlined") {
            style.underlined = value;
        }
        if let Some(value) = flag(obj, "strikethrough") {
            style.strikethrough = value;
        }
        if let Some(value) = flag(obj, "obfuscated") {
            style.obfuscated = value;
        }
        style
    }

    /// Whether a client already in this state reaches `other` by turning things
    /// on only: nothing `other` turns off is on here.
    ///
    /// An attribute is switched off by `§r` alone, which clears the color too,
    /// so a run that drops one costs a reset. Attributes `other` turns on are
    /// written as codes with its run, and those it keeps are left on.
    pub fn covers(&self, other: &Self) -> (res: bool)
        ensures
            res == self.covered_by(*other),
    {
        (self.color.is_none() || other.color.is_some()) && (!self.bold || other.bold) && (
        !self.italic || other.italic) && (!self.underlined || other.underlined) && (
        !self.strikethrough || other.strikethrough) && (!self.obfuscated || other.obfuscated)
    }
}

/// A boolean style flag, if present as a JSON boolean.
pub fn flag(obj: &Members, key: &str) -> (res: Option<bool>)
    ensures
        res == flag_of(obj@, key@),
{
    match get(obj, key) {
        Some(Value::Bool(value)) => Some(*value),
        _ => None,
    }
}

// ─── Colors ──────────────────────────────────────────────────────────────────

/// The color a name stands for, among the sixteen legacy names. `grey` counts
/// as `gray`.
pub open spec fn named_color(name: Seq<char>) -> Option<nat> {
    if name == "black"@ {
        Some(0)
    } else if name == "dark_blue"@ {
        Some(1)
    } else if name == "dark_green"@ {
        Some(2)
    } else if name == "dark_aqua"@ {
        Some(3)
    } else if name == "dark_red"@ {
        Some(4)
    } else if name == "dark_purple"@ {
        Some(5)
    } else if name == "gold"@ {
        Some(6)
    } else if name == "gray"@ || name == "grey"@ {
        Some(7)
    } else if name == "dark_gray"@ || name == "dark_grey"@ {
        Some(8)
    } else if name == "blue"@ {
        Some(9)
    } else if name == "green"@ {
        Some(10)
    } else if name == "aqua"@ {
        Some(11)
    } else if name == "red"@ {
        Some(12)
    } else if name == "light_purple"@ {
        Some(13)
    } else if name == "yellow"@ {
        Some(14)
    } else if name == "white"@ {
        Some(15)
    } else {
        None
    }
}

/// The RGB value a `#rrggbb` text denotes: `#` and six hexadecimal digits, in
/// either case.
pub open spec fn hex_rgb(name: Seq<char>) -> Option<nat> {
    if name.len() == 7 && name[0] == '#' && all_digits(name.skip(1), 16) {
        Some(digits_value(name.skip(1), 16))
    } else {
        None
    }
}

/// The legacy color a color text resolves to: a name, or the nearest color to
/// an RGB value.
pub open spec fn color_of(name: Seq<char>) -> Option<nat> {
    match named_color(name) {
        Some(index) => Some(index),
        None => match hex_rgb(name) {
            Some(rgb) => Some(nearest(rgb)),
            None => None,
        },
    }
}

/// The red, green and blue channel of an RGB value.
pub open spec fn rgb_channels(rgb: nat) -> (nat, nat, nat) {
    (rgb / 0x10000 % 0x100, rgb / 0x100 % 0x100, rgb % 0x100)
}

/// The square of the difference of two channel values.
pub open spec fn squared(a: int, b: int) -> nat {
    ((a - b) * (a - b)) as nat
}

/// The squared distance of two RGB values.
pub open spec fn rgb_distance(a: nat, b: nat) -> nat {
    let (a_r, a_g, a_b) = rgb_channels(a);
    let (b_r, b_g, b_b) = rgb_channels(b);
    squared(a_r as int, b_r as int) + squared(a_g as int, b_g as int) + squared(
        a_b as int,
        b_b as int,
    )
}

/// How far `rgb` is from the legacy color at `index`.
pub open spec fn color_distance(rgb: nat, index: nat) -> nat {
    rgb_distance(rgb, COLORS@[index as int].1 as nat)
}

/// Whether no legacy color is nearer to `rgb` than the one at `index`, and none
/// before it is as near.
pub open spec fn is_nearest(rgb: nat, index: nat) -> bool {
    &&& index < 16
    &&& forall|j: nat| j < 16 ==> color_distance(rgb, index) <= #[trigger] color_distance(rgb, j)
    &&& forall|j: nat| j < index ==> color_distance(rgb, index) < #[trigger] color_distance(rgb, j)
}

/// The legacy color nearest to `rgb`, the first one where several are.
pub open spec fn nearest(rgb: nat) -> nat {
    choose|index: nat| is_nearest(rgb, index)
}

/// There is just one nearest color.
pub proof fn lemma_nearest_unique(rgb: nat, index: nat)
    requires
        is_nearest(rgb, index),
    ensures
        nearest(rgb) == index,
{
    let other = nearest(rgb);
    assert(is_nearest(rgb, other));
    assert(color_distance(rgb, index) <= color_distance(rgb, other));
    assert(color_distance(rgb, other) <= color_distance(rgb, index));
}

/// Index into [`COLORS`] for a color name or a `#rrggbb` text, or `None` if it
/// is neither. `grey` spellings are accepted alongside `gray`.
pub fn color_index(name: &str) -> (res: Option<usize>)
    ensures
        match res {
            Some(index) => color_of(name@) == Some(index as nat) && index < 16,
            None => color_of(name@) is None,
        },
{
    if same_text(name, "black") {
        Some(0)
    } else if same_text(name, "dark_blue") {
        Some(1)
    } else if same_text(name, "dark_green") {
        Some(2)
    } else if same_text(name, "dark_aqua") {
        Some(3)
    } else if same_text(name, "dark_red") {
        Some(4)
    } else if same_text(name, "dark_purple") {
        Some(5)
    } else if same_text(name, "gold") {
        Some(6)
    } else if same_text(name, "gray") || same_text(name, "grey") {
        Some(7)
    } else if same_text(name, "dark_gray") || same_text(name, "dark_grey") {
        Some(8)
    } else if same_text(name, "blue") {
        Some(9)
    } else if same_text(name, "green") {
        Some(10)
    } else if same_text(name, "aqua") {
        Some(11)
    } else if same_text(name, "red") {
        Some(12)
    } else if same_text(name, "light_purple") {
        Some(13)
    } else if same_text(name, "yellow") {
        Some(14)
    } else if same_text(name, "white") {
        Some(15)
    } else {
        match parse_hex(name) {
            Some(rgb) => Some(nearest_color(rgb)),
            None => None,
        }
    }
}

/// Parse a `#rrggbb` color into RGB, in either case.
pub fn parse_hex(name: &str) -> (res: Option<u32>)
    ensures
        match res {
            Some(rgb) => hex_rgb(name@) == Some(rgb as nat) && rgb <= 0xFF_FFFF,
            None => hex_rgb(name@) is None,
        },
{
    let chars = chars_of(name);
    if chars.len() != 7 || chars[0] != '#' {
        return None;
    }
    let ghost digits = name@.skip(1);
    assert(chars@.subrange(1, 7) =~= digits);
    assert(digits[0] == chars@[1]);
    // The number may carry a sign, the color may not.
    if chars[1] == '+' {
        assert(digit_value(digits[0], 16) is None);
        return None;
    }
    proof {
        if all_digits(digits, 16) {
            lemma_digits_value_bound(digits, 16);
            reveal_with_fuel(power, 7);
        }
    }
    parse_unsigned(&chars, 1, 7, 16, 0xFF_FFFF)
}

/// Index of the legacy color closest to `rgb`.
///
/// The first of the closest wins, so a tie goes to the earlier entry in
/// [`COLORS`], and an exact match has distance 0.
///
/// Downgrading is the only option: the format carries no 24-bit color, and the
/// `§x§r§r§g§g§b§b` extension that would carry one is not understood by vanilla
/// clients. They drop the unknown `§x` pair and read the hex digits after it as
/// codes of their own.
pub fn nearest_color(rgb: u32) -> (res: usize)
    ensures
        res < 16,
        is_nearest(rgb as nat, res as nat),
        res == nearest(rgb as nat),
{
    let mut best: usize = 0;
    let mut least: u32 = distance(rgb, COLORS[0].1);
    let mut i: usize = 1;
    while i < 16
        invariant
            best < i <= 16,
            least == color_distance(rgb as nat, best as nat),
            forall|j: nat| j < i ==> least <= #[trigger] color_distance(rgb as nat, j),
            forall|j: nat| j < best ==> least < #[trigger] color_distance(rgb as nat, j),
        decreases 16 - i,
    {
        let d: u32 = distance(rgb, COLORS[i].1);
        assert(d == color_distance(rgb as nat, i as nat));
        if d < least {
            best = i;
            least = d;
        }
        i = i + 1;
    }
    proof {
        lemma_nearest_unique(rgb as nat, best as nat);
    }
    best
}

/// Split an RGB value into its three channels.
pub fn channels(rgb: u32) -> (res: (i32, i32, i32))
    ensures
        res.0 == rgb_channels(rgb as nat).0,
        res.1 == rgb_channels(rgb as nat).1,
        res.2 == rgb_channels(rgb as nat).2,
{
    assert((rgb >> 16) & 0xFF == rgb / 0x10000 % 0x100) by (bit_vector);
    assert((rgb >> 8) & 0xFF == rgb / 0x100 % 0x100) by (bit_vector);
    assert(rgb & 0xFF == rgb % 0x100) by (bit_vector);
    (((rgb >> 16) & 0xFF) as i32, ((rgb >> 8) & 0xFF) as i32, (rgb & 0xFF) as i32)
}

/// Squared difference between two 0–255 channel values: at most `255²` per
/// channel, so the three-channel sum in [`distance`] fits a `u32`.
pub fn square(a: i32, b: i32) -> (res: u32)
    requires
        -0xFFFF <= a - b <= 0xFFFF,
    ensures
        res == squared(a as int, b as int),
{
    let diff: u32 = if a < b {
        (b - a) as u32
    } else {
        (a - b) as u32
    };
    assert(diff * diff <= 0xFFFF * 0xFFFF) by (nonlinear_arith)
        requires
            diff <= 0xFFFF,
    ;
    assert((a - b) * (a - b) == diff * diff) by (nonlinear_arith)
        requires
            diff == a - b || diff == b - a,
    ;
    diff * diff
}

/// Squared sRGB distance between two colors.
///
/// Squared, so the comparison needs no square root: it orders distances exactly
/// and keeps equidistant colors tied.
pub fn distance(a: u32, b: u32) -> (res: u32)
    ensures
        res == rgb_distance(a as nat, b as nat),
{
    let (a_r, a_g, a_b) = channels(a);
    let (b_r, b_g, b_b) = channels(b);
    let r: u32 = square(a_r, b_r);
    let g: u32 = square(a_g, b_g);
    let b: u32 = square(a_b, b_b);
    proof {
        lemma_square_bound(a_r as int, b_r as int);
        lemma_square_bound(a_g as int, b_g as int);
        lemma_square_bound(a_b as int, b_b as int);
    }
    r + g + b
}

/// Channel values differ by at most 255.
proof fn lemma_square_bound(a: int, b: int)
    by (nonlinear_arith)
    requires
        0 <= a <= 255,
        0 <= b <= 255,
    ensures
        (a - b) * (a - b) <= 65025,
        0 <= (a - b) * (a - b),
{
}

} // verus!
