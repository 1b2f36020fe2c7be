//! Chat components: what they render as.

use lite_mc_ping::chat::{to_legacy_text, to_plain_text};
use lite_mc_ping::json::Value;

fn convert(value: serde_json::Value) -> Value {
    match value {
        serde_json::Value::Null => Value::Null,
        serde_json::Value::Bool(b) => Value::Bool(b),
        serde_json::Value::Number(n) => Value::Number(n),
        serde_json::Value::String(s) => Value::String(s),
        serde_json::Value::Array(items) => Value::Array(items.into_iter().map(convert).collect()),
        serde_json::Value::Object(members) => Value::Object(
            members
                .into_iter()
                .map(|(key, value)| (key, convert(value)))
                .collect(),
        ),
    }
}

fn json(text: &str) -> Value {
    convert(serde_json::from_str(text).unwrap())
}

#[test]
fn plain_string_is_passed_through() {
    assert_eq!(to_legacy_text(&json(r#""Hello""#)), "Hello");
    assert_eq!(to_legacy_text(&json(r#"{"text": "Hello"}"#)), "Hello");
}

#[test]
fn object_style_becomes_codes() {
    let motd = json(r#"{"text": "Welcome", "color": "aqua", "bold": true}"#);
    assert_eq!(to_legacy_text(&motd), "§b§lWelcome");
}

#[test]
fn every_style_flag_has_a_code() {
    let motd = json(
        r#"{
            "text": "x",
            "italic": true,
            "underlined": true,
            "strikethrough": true,
            "obfuscated": true
        }"#,
    );
    assert_eq!(to_legacy_text(&motd), "§o§n§m§kx");
}

#[test]
fn extra_builds_a_two_line_motd() {
    let motd = json(
        r##"{
            "text": "",
            "extra": [
                {"text": "My Minecraft Server", "color": "#55FF55", "bold": true},
                {"text": "\n"},
                {"text": "Survival & PvP & Events", "color": "gray"}
            ]
        }"##,
    );
    // The middle component inherits nothing, so the green bold state is reset
    // before the newline and the gray second line.
    assert_eq!(
        to_legacy_text(&motd),
        "§a§lMy Minecraft Server§r\n§7Survival & PvP & Events"
    );
    assert_eq!(
        to_plain_text(&motd),
        "My Minecraft Server\nSurvival & PvP & Events"
    );
}

#[test]
fn children_inherit_parent_style() {
    let motd = json(
        r#"{
            "text": "a",
            "color": "red",
            "bold": true,
            "extra": [{"text": "b"}, {"text": "c", "bold": false}]
        }"#,
    );
    // "b" needs no codes; turning bold off requires a reset, then the color is
    // re-applied.
    assert_eq!(to_legacy_text(&motd), "§c§lab§r§cc");
}

#[test]
fn an_unchanged_style_costs_no_codes() {
    let motd = json(
        r#"{
            "text": "a",
            "color": "red",
            "bold": true,
            "extra": [{"text": "b", "color": "red"}]
        }"#,
    );
    assert_eq!(to_legacy_text(&motd), "§c§lab");
}

#[test]
fn a_color_code_clears_the_flags_with_it() {
    // `§a` switches the inherited bold off on the client (only `§l` and friends
    // turn attributes on), so writing the color alone would drop it.
    let motd = json(
        r#"{
            "text": "a",
            "color": "red",
            "bold": true,
            "italic": true,
            "extra": [{"text": "b", "color": "green"}]
        }"#,
    );
    assert_eq!(to_legacy_text(&motd), "§c§l§oa§a§l§ob");
}

#[test]
fn color_reset_clears_inherited_color_and_style() {
    let motd = json(
        r#"{
            "text": "a",
            "color": "red",
            "bold": true,
            "extra": [{"text": "b", "color": "reset"}]
        }"#,
    );
    assert_eq!(to_legacy_text(&motd), "§c§la§rb");
}

#[test]
fn array_shorthand_inherits_first_element() {
    let motd = json(r#"[{"text": "A", "color": "red"}, "B", "C"]"#);
    assert_eq!(to_legacy_text(&motd), "§cABC");
}

#[test]
fn hex_colors_downgrade_to_the_nearest_legacy_color() {
    assert_eq!(
        to_legacy_text(&json(r##"{"text": "x", "color": "#000000"}"##)),
        "§0x"
    );
    assert_eq!(
        to_legacy_text(&json(r##"{"text": "x", "color": "#010101"}"##)),
        "§0x"
    );
    assert_eq!(
        to_legacy_text(&json(r##"{"text": "x", "color": "#FF0000"}"##)),
        "§4x"
    );
    // Parsed case-insensitively …
    assert_eq!(
        to_legacy_text(&json(r##"{"text": "x", "color": "#ff0000"}"##)),
        "§4x"
    );
    // … and equidistant to black and dark_blue, so the earlier entry wins.
    assert_eq!(
        to_legacy_text(&json(r##"{"text": "x", "color": "#000055"}"##)),
        "§0x"
    );
}

#[test]
fn unknown_and_malformed_styles_are_ignored() {
    let motd = json(r#"{"text": "x", "color": "chartreuse", "bold": "yes"}"#);
    assert_eq!(to_legacy_text(&motd), "x");
    let motd = json(r#"{"text": "x", "color": 12}"#);
    assert_eq!(to_legacy_text(&motd), "x");
}

#[test]
fn text_codes_reach_the_client_that_applies_them() {
    // A client reads the codes inside the text over the component's style, so
    // they are what the MOTD renders in.
    let motd = json(r#"{"text": "§cboom", "color": "green"}"#);
    assert_eq!(to_legacy_text(&motd), "§a§cboom");

    // Vanilla has no `§x` code: it is swallowed, and the six codes behind it are
    // applied, so this MOTD renders dark purple even though its style says
    // green.
    let motd = json(r#"{"text": "§x§F§F§5§5§5§5hi", "color": "green"}"#);
    assert_eq!(to_legacy_text(&motd), "§a§x§F§F§5§5§5§5hi");

    // A `§` that starts no code is not styling, so it stays as it is.
    assert_eq!(to_legacy_text(&json(r#"{"text": "50§ off"}"#)), "50§ off");

    // Plain text is what the client shows, so the codes go with the rest of the
    // styling. A `§` swallows the character after it even when it starts no
    // code, as the client reads it as formatting either way.
    assert_eq!(to_plain_text(&json(r#"{"text": "§cboom"}"#)), "boom");
    assert_eq!(to_plain_text(&json(r#"{"text": "a§zb"}"#)), "ab");
    assert_eq!(to_plain_text(&json(r#"{"text": "50§ off"}"#)), "50off");
    assert_eq!(to_plain_text(&json(r#"{"text": "tail§"}"#)), "tail");
}

#[test]
fn text_codes_do_not_leak_into_the_next_run() {
    // The `§l` inside the first run's text stays on in the client, and the child
    // overrides no flag, so the next run resets and restates its color instead
    // of trusting the state the writer had reached.
    let motd = json(r#"{"text": "§lA", "extra": [{"text": "B", "color": "green"}]}"#);
    assert_eq!(to_legacy_text(&motd), "§lA§r§aB");
}

#[test]
fn translated_text_uses_fallback_then_with_arguments() {
    let fallback = json(r#"{"translate": "chat.type.text", "fallback": "Steve: hi"}"#);
    assert_eq!(to_legacy_text(&fallback), "Steve: hi");

    let args = json(
        r#"{
            "translate": "multiplayer.player.joined",
            "with": [{"text": "Steve", "color": "yellow"}, "!"]
        }"#,
    );
    // Arguments replaced by the key's `%s` slots cannot be re-ordered or
    // re-spaced without the language file, so they are joined by a space.
    assert_eq!(to_legacy_text(&args), "§eSteve§r !");

    // Nothing renderable: no fallback, no arguments.
    assert_eq!(
        to_legacy_text(&json(r#"{"translate": "chat.type.text"}"#)),
        ""
    );
}

#[test]
fn non_text_content_contributes_nothing() {
    assert_eq!(
        to_legacy_text(&json(r#"{"score": {"name": "x", "objective": "o"}}"#)),
        ""
    );
    assert_eq!(to_legacy_text(&json(r#"{"selector": "@p"}"#)), "");
    assert_eq!(
        to_legacy_text(&json(
            r#"{"type": "object", "object": "atlas", "sprite": "block/emerald_block"}"#
        )),
        ""
    );
    // ... while sibling components still render.
    let motd = json(
        r#"{
            "extra": [
                {"type": "object", "object": "atlas", "sprite": "block/emerald_block"},
                {"text": "hi"}
            ]
        }"#,
    );
    assert_eq!(to_legacy_text(&motd), "hi");
}

#[test]
fn shorthand_numbers_and_booleans_are_stringified() {
    assert_eq!(to_plain_text(&json("[1, true, 2.5]")), "1true2.5");
}

#[test]
fn empty_components_produce_empty_text() {
    assert_eq!(to_legacy_text(&json("{}")), "");
    assert_eq!(to_legacy_text(&json("[]")), "");
    assert_eq!(to_legacy_text(&json("null")), "");
}

#[test]
fn every_named_color_has_its_code() {
    let names = [
        ("black", '0'),
        ("dark_blue", '1'),
        ("dark_green", '2'),
        ("dark_aqua", '3'),
        ("dark_red", '4'),
        ("dark_purple", '5'),
        ("gold", '6'),
        ("gray", '7'),
        ("dark_gray", '8'),
        ("blue", '9'),
        ("green", 'a'),
        ("aqua", 'b'),
        ("red", 'c'),
        ("light_purple", 'd'),
        ("yellow", 'e'),
        ("white", 'f'),
    ];
    for (name, code) in names {
        let motd = json(&format!(r#"{{"text": "x", "color": "{name}"}}"#));
        assert_eq!(to_legacy_text(&motd), format!("§{code}x"), "{name}");
    }
}

#[test]
fn exact_legacy_colors_keep_their_code() {
    let colors = [
        ("#000000", '0'),
        ("#0000AA", '1'),
        ("#00AA00", '2'),
        ("#00AAAA", '3'),
        ("#AA0000", '4'),
        ("#AA00AA", '5'),
        ("#FFAA00", '6'),
        ("#AAAAAA", '7'),
        ("#555555", '8'),
        ("#5555FF", '9'),
        ("#55FF55", 'a'),
        ("#55FFFF", 'b'),
        ("#FF5555", 'c'),
        ("#FF55FF", 'd'),
        ("#FFFF55", 'e'),
        ("#FFFFFF", 'f'),
    ];
    for (color, code) in colors {
        let motd = json(&format!(r#"{{"text": "x", "color": "{color}"}}"#));
        assert_eq!(to_legacy_text(&motd), format!("§{code}x"), "{color}");
    }
}

#[test]
fn malformed_hex_colors_are_ignored() {
    for color in ["#", "#12345", "#1234567", "#GG0000", "#é1234", "000000", "#+12345", "#-12345", "#fff"] {
        let motd = json(&format!(r#"{{"text": "x", "color": "{color}"}}"#));
        assert_eq!(to_legacy_text(&motd), "x", "{color}");
    }
}

#[test]
fn the_list_is_shorthand_for_extra() {
    let list = json(r#"[{"text": "a", "bold": true}, "b", {"text": "c", "color": "red"}]"#);
    let object = json(
        r#"{"text": "a", "bold": true, "extra": ["b", {"text": "c", "color": "red"}]}"#,
    );
    assert_eq!(to_legacy_text(&list), to_legacy_text(&object));
    assert_eq!(to_legacy_text(&list), "§lab§c§lc");

    let list = json(r#"[{"text": "a", "extra": ["b"]}, {"text": "c", "italic": true}]"#);
    let object = json(r#"{"text": "a", "extra": ["b", {"text": "c", "italic": true}]}"#);
    assert_eq!(to_legacy_text(&list), to_legacy_text(&object));
    assert_eq!(to_legacy_text(&list), "ab§oc");
}

#[test]
fn a_list_may_begin_with_a_text() {
    for first in [r#""a""#, "1", "true", "null"] {
        let list = json(&format!(r#"[{first}, {{"text": "c", "color": "red"}}, "d"]"#));
        let object = json(&format!(
            r#"{{"text": {first}, "extra": [{{"text": "c", "color": "red"}}, "d"]}}"#
        ));
        assert_eq!(to_legacy_text(&list), to_legacy_text(&object), "{first}");
    }
}

#[test]
fn numbers_are_printed_as_json_prints_them() {
    assert_eq!(to_plain_text(&json("1e3")), "1000.0");
    assert_eq!(to_plain_text(&json("-7")), "-7");
}

#[test]
fn plain_text_is_the_legacy_text_without_its_codes() {
    let motd = json(
        r#"{"text": "§lA", "extra": [{"text": "B", "color": "green"}, " ", {"text": "§kC", "italic": true}]}"#,
    );
    let legacy = to_legacy_text(&motd);
    let mut shown = String::new();
    let mut chars = legacy.chars();
    while let Some(c) = chars.next() {
        if c == '§' {
            chars.next();
        } else {
            shown.push(c);
        }
    }
    assert_eq!(to_plain_text(&motd), shown);
    assert_eq!(shown, "AB C");
}

#[test]
fn a_child_that_drops_bold_costs_a_reset() {
    let motd = json(
        r##"{
            "text": "My Minecraft Server\n",
            "color": "#55FF55",
            "bold": true,
            "extra": [{ "text": "Survival & PvP", "color": "gray", "bold": false }]
        }"##,
    );
    assert_eq!(
        to_legacy_text(&motd),
        "§a§lMy Minecraft Server\n§r§7Survival & PvP"
    );
}

#[test]
fn plain_text_spans_lines() {
    let motd = json(r#"{"text": "Line one", "color": "red", "extra": ["\nLine two"]}"#);
    assert_eq!(to_plain_text(&motd), "Line one\nLine two");
}

#[test]
fn a_waiting_section_sign_is_completed_to_a_reset() {
    // The text goes out as it came in, so its `§` is the one of the reset.
    let motd = json(r#"{"text": "tail§", "extra": ["B"]}"#);
    assert_eq!(to_legacy_text(&motd), "tail§rB");
    assert_eq!(to_plain_text(&motd), "tailB");
    let motd = json(r#"["tail§", {"text": "B", "color": "red", "bold": true}, "C"]"#);
    assert_eq!(to_legacy_text(&motd), "tail§r§c§lB§rC");
    assert_eq!(to_plain_text(&motd), "tailBC");
    // Empty runs write nothing, and leave it waiting.
    let motd = json(r#"["tail§", {"text": "", "color": "red"}]"#);
    assert_eq!(to_legacy_text(&motd), "tail§");
    let motd = json(r#"["tail§", {"text": "", "color": "red"}, "B"]"#);
    assert_eq!(to_legacy_text(&motd), "tail§rB");
    // `§§` is a code of its own, and a third one waits again.
    let motd = json(r#"["a§§", "B"]"#);
    assert_eq!(to_legacy_text(&motd), "a§§§rB");
    assert_eq!(to_plain_text(&motd), "aB");
    let motd = json(r#"["a§§§", "B§", "C"]"#);
    assert_eq!(to_legacy_text(&motd), "a§§§rB§rC");
    assert_eq!(to_plain_text(&motd), "aBC");
}

#[test]
fn a_clone_is_the_same_value() {
    let motd = json(r##"{"text": "a", "n": [1, 2.5, null, true], "extra": [{"text": "b", "color": "#ff0000"}]}"##);
    assert_eq!(motd.clone(), motd);
    assert_eq!(to_legacy_text(&motd.clone()), "a§4b");
}

#[test]
fn an_object_shows_its_text_before_its_translation() {
    let motd = json(r#"{"text": "a", "translate": "k", "fallback": "b"}"#);
    assert_eq!(to_plain_text(&motd), "a");
    // A `text` that is none still counts as the content.
    let motd = json(r#"{"text": [], "translate": "k", "fallback": "b"}"#);
    assert_eq!(to_plain_text(&motd), "");
    let motd = json(r#"{"translate": 1, "fallback": "b"}"#);
    assert_eq!(to_plain_text(&motd), "");
}

#[test]
fn repeated_keys_count_once() {
    let members = vec![
        ("text".to_string(), Value::String("first".to_string())),
        ("text".to_string(), Value::String("last".to_string())),
    ];
    assert_eq!(to_plain_text(&Value::Object(members)), "last");
}

#[test]
fn grey_is_gray() {
    for (name, code) in [("grey", '7'), ("dark_grey", '8')] {
        let motd = json(&format!(r#"{{"text": "x", "color": "{name}"}}"#));
        assert_eq!(to_legacy_text(&motd), format!("§{code}x"));
    }
}

#[test]
fn objects_are_equal_in_any_order() {
    let member = |key: &str, text: &str| (key.to_string(), Value::String(text.to_string()));
    let one = Value::Object(vec![member("a", "1"), member("b", "2")]);
    let other = Value::Object(vec![member("b", "2"), member("a", "1")]);
    assert_eq!(one, other);
    // Of a repeated key only the last member counts.
    let repeated = Value::Object(vec![member("a", "0"), member("b", "2"), member("a", "1")]);
    assert_eq!(one, repeated);
    assert_eq!(repeated, one);
    for unlike in [
        Value::Object(vec![member("a", "1")]),
        Value::Object(vec![member("a", "1"), member("b", "3")]),
        Value::Object(vec![member("a", "1"), member("b", "2"), member("c", "3")]),
        Value::Array(vec![]),
    ] {
        assert_ne!(one, unlike);
        assert_ne!(unlike, one);
    }
}

#[test]
fn values_are_equal_as_json() {
    assert_eq!(json("[1, 2.5, null, true]"), json("[1, 2.5, null, true]"));
    assert_eq!(json("-0.0"), json("0.0"));
    assert_ne!(json("1"), json("1.0"));
    assert_ne!(json("[1, 2]"), json("[2, 1]"));
    assert_ne!(json("[1]"), json("[1, 1]"));
    assert_ne!(json("true"), json("false"));
    assert_ne!(json(r#""a""#), json(r#""b""#));
    assert_ne!(json("null"), json("false"));
}
