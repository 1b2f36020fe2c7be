//! What holds of styles and colors.

use crate::json::{member, Value};
use crate::style::{
    color_distance, color_of, hex_rgb, is_nearest, lemma_color_exists, named_color, nearest,
    plain_style, resolved, rgb_channels, Style, COLORS,
};
use crate::text::{all_digits, digit_value, digits_value};
use vstd::prelude::*;

verus! {

/// Whether an object's `color` clears the style.
pub open spec fn is_reset(members: Seq<(String, Value)>) -> bool {
    member(members, "color"@) matches Some(Value::String(name)) && name@ == "reset"@
}

/// **Each flag is set by the member under its own key**, to the boolean it holds.
pub proof fn law_each_flag_has_its_key(
    parent: Style,
    members: Seq<(String, Value)>,
    value: bool,
)
    ensures
        member(members, "bold"@) == Some(Value::Bool(value)) ==> resolved(parent, members).bold
            == value,
        member(members, "italic"@) == Some(Value::Bool(value)) ==> resolved(parent, members).italic
            == value,
        member(members, "underlined"@) == Some(Value::Bool(value)) ==> resolved(
            parent,
            members,
        ).underlined == value,
        member(members, "strikethrough"@) == Some(Value::Bool(value)) ==> resolved(
            parent,
            members,
        ).strikethrough == value,
        member(members, "obfuscated"@) == Some(Value::Bool(value)) ==> resolved(
            parent,
            members,
        ).obfuscated == value,
{
}

/// **A flag that no boolean stands for is the parent's**, or off after a reset.
pub proof fn law_flags_are_inherited(parent: Style, members: Seq<(String, Value)>)
    ensures
        !(member(members, "bold"@) matches Some(Value::Bool(_))) ==> resolved(parent, members).bold
            == (parent.bold && !is_reset(members)),
        !(member(members, "italic"@) matches Some(Value::Bool(_))) ==> resolved(
            parent,
            members,
        ).italic == (parent.italic && !is_reset(members)),
        !(member(members, "underlined"@) matches Some(Value::Bool(_))) ==> resolved(
            parent,
            members,
        ).underlined == (parent.underlined && !is_reset(members)),
        !(member(members, "strikethrough"@) matches Some(Value::Bool(_))) ==> resolved(
            parent,
            members,
        ).strikethrough == (parent.strikethrough && !is_reset(members)),
        !(member(members, "obfuscated"@) matches Some(Value::Bool(_))) ==> resolved(
            parent,
            members,
        ).obfuscated == (parent.obfuscated && !is_reset(members)),
{
}

/// **The color is the one that `color` names**, none after a reset, and the
/// parent's where it names none.
pub proof fn law_color_is_what_is_named(parent: Style, members: Seq<(String, Value)>)
    requires
        parent.wf(),
    ensures
        is_reset(members) ==> resolved(parent, members).color is None,
        !is_reset(members) ==> (match member(members, "color"@) {
            Some(Value::String(name)) => match color_of(name@) {
                Some(index) => resolved(parent, members).color == Some(index as usize) && index
                    < 16,
                None => resolved(parent, members).color == parent.color,
            },
            _ => resolved(parent, members).color == parent.color,
        }),
{
    if let Some(Value::String(name)) = member(members, "color"@) {
        lemma_color_exists(name@);
    }
}

/// The names of the legacy colors, in code order.
pub open spec fn color_names() -> Seq<Seq<char>> {
    seq![
        "black"@,
        "dark_blue"@,
        "dark_green"@,
        "dark_aqua"@,
        "dark_red"@,
        "dark_purple"@,
        "gold"@,
        "gray"@,
        "dark_gray"@,
        "blue"@,
        "green"@,
        "aqua"@,
        "red"@,
        "light_purple"@,
        "yellow"@,
        "white"@,
    ]
}

/// Whether a text is `#` and six hexadecimal digits, worth `digits`.
pub open spec fn is_hex(name: Seq<char>, digits: Seq<nat>) -> bool {
    &&& name.len() == 7
    &&& name[0] == '#'
    &&& digits.len() == 6
    &&& forall|i: int|
        0 <= i < 6 ==> {
            let c = name[i + 1] as int;
            let d = #[trigger] digits[i];
            ||| d < 10 && c == '0' as int + d
            ||| 10 <= d < 16 && c == 'a' as int + (d - 10)
            ||| 10 <= d < 16 && c == 'A' as int + (d - 10)
        }
}

/// **Only the legacy names and `#rrggbb` texts are colors.**
pub proof fn law_nothing_else_is_a_color(name: Seq<char>)
    ensures
        color_of(name) is Some <==> (color_names().contains(name) || name == "grey"@ || name
            == "dark_grey"@ || exists|digits: Seq<nat>| is_hex(name, digits)),
{
    let names = color_names();
    if hex_rgb(name) is Some {
        let digits = Seq::new(6, |i: int| digit_value(name[i + 1], 16).unwrap());
        assert forall|i: int| 0 <= i < 6 implies ({
            let c = name[i + 1] as int;
            let d = #[trigger] digits[i];
            ||| d < 10 && c == '0' as int + d
            ||| 10 <= d < 16 && c == 'a' as int + (d - 10)
            ||| 10 <= d < 16 && c == 'A' as int + (d - 10)
        }) by {
            assert(name.skip(1)[i] == name[i + 1]);
            assert(digit_value(name.skip(1)[i], 16) is Some);
        }
        assert(is_hex(name, digits));
    }
    if exists|digits: Seq<nat>| is_hex(name, digits) {
        let digits = choose|digits: Seq<nat>| is_hex(name, digits);
        lemma_hex(name, digits);
    }
    if named_color(name) is Some {
        let i = named_color(name).unwrap() as int;
        if name != "grey"@ && name != "dark_grey"@ {
            assert(names[i] == name);
        }
    }
    if names.contains(name) {
        let i = choose|i: int| 0 <= i < names.len() && names[i] == name;
        lemma_names(i);
    }
}

/// The names are different, so each stands for its own color.
proof fn lemma_names(i: int)
    requires
        0 <= i < 16,
    ensures
        named_color(color_names()[i]) == Some(i as nat),
{
    reveal_strlit("black");
    reveal_strlit("dark_blue");
    reveal_strlit("dark_green");
    reveal_strlit("dark_aqua");
    reveal_strlit("dark_red");
    reveal_strlit("dark_purple");
    reveal_strlit("gold");
    reveal_strlit("gray");
    reveal_strlit("grey");
    reveal_strlit("dark_gray");
    reveal_strlit("dark_grey");
    reveal_strlit("blue");
    reveal_strlit("green");
    reveal_strlit("aqua");
    reveal_strlit("red");
    reveal_strlit("light_purple");
    reveal_strlit("yellow");
    reveal_strlit("white");
    let name = color_names()[i];
    // Length and one letter tell any two of them apart.
    assert("black"@.len() == 5 && "black"@[0] == 'b');
    assert("dark_blue"@.len() == 9 && "dark_blue"@[5] == 'b');
    assert("dark_green"@.len() == 10 && "dark_green"@[5] == 'g');
    assert("dark_aqua"@.len() == 9 && "dark_aqua"@[5] == 'a');
    assert("dark_red"@.len() == 8);
    assert("dark_purple"@.len() == 11);
    assert("gold"@.len() == 4 && "gold"@[1] == 'o');
    assert("gray"@.len() == 4 && "gray"@[1] == 'r' && "gray"@[2] == 'a');
    assert("grey"@.len() == 4 && "grey"@[1] == 'r' && "grey"@[2] == 'e');
    assert("dark_gray"@.len() == 9 && "dark_gray"@[5] == 'g' && "dark_gray"@[7] == 'a');
    assert("dark_grey"@.len() == 9 && "dark_grey"@[5] == 'g' && "dark_grey"@[7] == 'e');
    assert("blue"@.len() == 4 && "blue"@[1] == 'l');
    assert("green"@.len() == 5 && "green"@[0] == 'g');
    assert("aqua"@.len() == 4 && "aqua"@[1] == 'q');
    assert("red"@.len() == 3);
    assert("light_purple"@.len() == 12);
    assert("yellow"@.len() == 6);
    assert("white"@.len() == 5 && "white"@[0] == 'w');
}

/// **Each legacy name stands for its own color**, and the British spellings for
/// the two grays.
pub proof fn law_names_stand_for_their_colors(index: nat)
    ensures
        index < 16 ==> color_of(color_names()[index as int]) == Some(index),
        color_of("grey"@) == color_of("gray"@),
        color_of("dark_grey"@) == color_of("dark_gray"@),
{
    if index < 16 {
        lemma_names(index as int);
    }
    lemma_names(7);
    lemma_names(8);
    assert(named_color("grey"@) == Some(7nat)) by {
        reveal_strlit("grey");
        reveal_strlit("black");
        reveal_strlit("dark_blue");
        reveal_strlit("dark_green");
        reveal_strlit("dark_aqua");
        reveal_strlit("dark_red");
        reveal_strlit("dark_purple");
        reveal_strlit("gold");
        assert("grey"@[1] == 'r' && "gold"@[1] == 'o');
    }
    assert(named_color("dark_grey"@) == Some(8nat)) by {
        reveal_strlit("dark_grey");
        reveal_strlit("black");
        reveal_strlit("dark_blue");
        reveal_strlit("dark_green");
        reveal_strlit("dark_aqua");
        reveal_strlit("dark_red");
        reveal_strlit("dark_purple");
        reveal_strlit("gold");
        reveal_strlit("gray");
        reveal_strlit("grey");
        assert("dark_grey"@[5] == 'g' && "dark_blue"@[5] == 'b' && "dark_aqua"@[5] == 'a');
    }
}

/// What six hexadecimal digits denote.
proof fn lemma_hex(name: Seq<char>, digits: Seq<nat>)
    requires
        is_hex(name, digits),
    ensures
        all_digits(name.skip(1), 16),
        hex_rgb(name) == Some(
            ((digits[0] * 16 + digits[1]) * 0x10000 + (digits[2] * 16 + digits[3]) * 0x100 + (
            digits[4] * 16 + digits[5])) as nat,
        ),
{
    let s = name.skip(1);
    assert forall|i: int| 0 <= i < 6 implies #[trigger] digit_value(s[i], 16) == Some(digits[i]) by {
        assert(s[i] == name[i + 1]);
    }
    assert forall|i: int| 0 <= i < s.len() implies #[trigger] digit_value(s[i], 16) is Some by {
        assert(digit_value(s[i], 16) == Some(digits[i]));
    }
    let s5 = s.drop_last();
    let s4 = s5.drop_last();
    let s3 = s4.drop_last();
    let s2 = s3.drop_last();
    let s1 = s2.drop_last();
    assert(s1.drop_last() =~= Seq::<char>::empty());
    assert(digits_value(s1.drop_last(), 16) == 0);
    assert(digit_value(s[0], 16) == Some(digits[0]) && digit_value(s[1], 16) == Some(digits[1])
        && digit_value(s[2], 16) == Some(digits[2]) && digit_value(s[3], 16) == Some(digits[3])
        && digit_value(s[4], 16) == Some(digits[4]) && digit_value(s[5], 16) == Some(digits[5]));
    assert(digits_value(s1, 16) == digits[0]);
    assert(digits_value(s2, 16) == digits[0] * 16 + digits[1]);
    assert(digits_value(s3, 16) == (digits[0] * 16 + digits[1]) * 16 + digits[2]);
    assert(digits_value(s4, 16) == ((digits[0] * 16 + digits[1]) * 16 + digits[2]) * 16
        + digits[3]);
    assert(digits_value(s5, 16) == (((digits[0] * 16 + digits[1]) * 16 + digits[2]) * 16
        + digits[3]) * 16 + digits[4]);
}

/// The square of the distance of a red, a green and a blue value from those of
/// the legacy color at `index`.
pub open spec fn off_by(red: int, green: int, blue: int, index: int) -> int {
    let rgb = COLORS@[index].1 as int;
    let (r, g, b) = (rgb / 0x10000, rgb / 0x100 % 0x100, rgb % 0x100);
    (red - r) * (red - r) + (green - g) * (green - g) + (blue - b) * (blue - b)
}

/// **A `#rrggbb` color becomes the legacy color nearest to it**: none is nearer by
/// the distance of red, green and blue, and where several are as near, none of
/// those comes before it.
pub proof fn law_hex_colors_go_to_the_nearest(name: Seq<char>, digits: Seq<nat>, other: int)
    requires
        is_hex(name, digits),
        0 <= other < 16,
    ensures
        color_of(name) is Some,
        ({
            let index = color_of(name).unwrap() as int;
            let red = digits[0] * 16 + digits[1];
            let green = digits[2] * 16 + digits[3];
            let blue = digits[4] * 16 + digits[5];
            &&& index < 16
            &&& off_by(red as int, green as int, blue as int, index) <= off_by(
                red as int,
                green as int,
                blue as int,
                other,
            )
            &&& other < index ==> off_by(red as int, green as int, blue as int, index) < off_by(
                red as int,
                green as int,
                blue as int,
                other,
            )
        }),
{
    lemma_hex(name, digits);
    lemma_color_exists(name);
    assert(named_color(name) is None) by {
        lemma_no_name_is_hex(name);
    }
    let rgb = hex_rgb(name).unwrap();
    let index = nearest(rgb);
    let red = digits[0] * 16 + digits[1];
    let green = digits[2] * 16 + digits[3];
    let blue = digits[4] * 16 + digits[5];
    assert(digits[0] < 16 && digits[1] < 16 && digits[2] < 16 && digits[3] < 16 && digits[4] < 16
        && digits[5] < 16);
    lemma_channels(red, green, blue);
    lemma_off_by(rgb, index as int);
    lemma_off_by(rgb, other);
    lemma_none_nearer(rgb, index, other as nat);
}

/// The channels that a value was put together from.
proof fn lemma_channels(red: nat, green: nat, blue: nat)
    requires
        red < 256,
        green < 256,
        blue < 256,
    ensures
        rgb_channels(red * 0x10000 + green * 0x100 + blue) == (red, green, blue),
{
}

/// What it is to be nearest.
proof fn lemma_none_nearer(rgb: nat, index: nat, other: nat)
    requires
        is_nearest(rgb, index),
        other < 16,
    ensures
        index < 16,
        color_distance(rgb, index) <= color_distance(rgb, other),
        other < index ==> color_distance(rgb, index) < color_distance(rgb, other),
{
}

/// The distance, channel by channel.
proof fn lemma_off_by(rgb: nat, index: int)
    requires
        0 <= index < 16,
    ensures
        ({
            let (red, green, blue) = rgb_channels(rgb);
            color_distance(rgb, index as nat) == off_by(
                red as int,
                green as int,
                blue as int,
                index,
            )
        }),
{
    let (red, green, blue) = rgb_channels(rgb);
    let c = COLORS@[index].1;
    assert(c <= 0xFF_FFFF);
    let (r, g, b) = rgb_channels(c as nat);
    assert((red - r) * (red - r) >= 0) by (nonlinear_arith);
    assert((green - g) * (green - g) >= 0) by (nonlinear_arith);
    assert((blue - b) * (blue - b) >= 0) by (nonlinear_arith);
}

/// No name of a color begins with `#`.
proof fn lemma_no_name_is_hex(name: Seq<char>)
    requires
        name.len() == 7,
    ensures
        named_color(name) is None,
{
    reveal_strlit("black");
    reveal_strlit("dark_blue");
    reveal_strlit("dark_green");
    reveal_strlit("dark_aqua");
    reveal_strlit("dark_red");
    reveal_strlit("dark_purple");
    reveal_strlit("gold");
    reveal_strlit("gray");
    reveal_strlit("grey");
    reveal_strlit("dark_gray");
    reveal_strlit("dark_grey");
    reveal_strlit("blue");
    reveal_strlit("green");
    reveal_strlit("aqua");
    reveal_strlit("red");
    reveal_strlit("light_purple");
    reveal_strlit("yellow");
    reveal_strlit("white");
}

/// **A style covers another exactly when nothing has to go**: each flag that is on
/// stays on, and a color is not given up, though it may change.
pub proof fn law_covering_is_dropping_nothing(on: Style, style: Style)
    ensures
        on.covered_by(style) <==> !(on.bold && !style.bold) && !(on.italic && !style.italic) && !(
        on.underlined && !style.underlined) && !(on.strikethrough && !style.strikethrough) && !(
        on.obfuscated && !style.obfuscated) && !(on.color is Some && style.color is None),
{
}

/// **The plain style has nothing on.**
pub proof fn law_plain_style_has_nothing_on()
    ensures
        plain_style().color is None,
        !plain_style().bold && !plain_style().italic && !plain_style().underlined,
        !plain_style().strikethrough && !plain_style().obfuscated,
{
}

} // verus!
