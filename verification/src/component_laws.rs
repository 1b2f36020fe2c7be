//! Laws of component rendering: what inheriting, resetting, listing and
//! leaving out mean for every component.

use crate::chat::{
    active_state, legacy_text, list_segments, literal_segments, own_style, run_codes, segments,
    translation_segments, Active, Segment,
};
use crate::json::{lemma_position, member, position, Members, Value};
use crate::style::{
    color_distance, color_of, flag_of, is_nearest, lemma_nearest_unique, nearest, plain_style,
    resolved, rgb_channels, rgb_distance, Style, COLORS,
};
use vstd::prelude::*;

verus! {

/// **A plain string is its own legacy text.**
pub proof fn law_plain_string_is_unchanged(text: String)
    ensures
        legacy_text(segments(Value::String(text), plain_style())) == text@,
{
    let runs = segments(Value::String(text), plain_style());
    assert(runs.drop_last() =~= Seq::<Segment>::empty());
    assert(legacy_text(runs.drop_last()) =~= Seq::<char>::empty());
    assert(active_state(runs.drop_last()) == Active::Known(plain_style()));
    assert(run_codes(Active::Known(plain_style()), plain_style()) =~= Seq::<char>::empty());
    assert(legacy_text(runs) =~= text@);
}

/// Whether an object says nothing of a style that is understood: no `color`
/// that is known, and no flag that is a boolean.
pub open spec fn unstyled(members: Seq<(String, Value)>) -> bool {
    &&& match member(members, "color"@) {
        Some(Value::String(name)) => name@ != "reset"@ && color_of(name@) is None,
        _ => true,
    }
    &&& flag_of(members, "bold"@) is None
    &&& flag_of(members, "italic"@) is None
    &&& flag_of(members, "underlined"@) is None
    &&& flag_of(members, "strikethrough"@) is None
    &&& flag_of(members, "obfuscated"@) is None
}

/// **An object that says nothing of its style, or nothing that is understood, has
/// its parent's.**
pub proof fn law_unstyled_objects_inherit(parent: Style, members: Seq<(String, Value)>)
    requires
        unstyled(members),
    ensures
        resolved(parent, members) == parent,
{
}

/// **`"color": "reset"` leaves nothing of the parent's style.**
pub proof fn law_reset_forgets_the_parent(
    parent: Style,
    other: Style,
    members: Seq<(String, Value)>,
    name: String,
)
    requires
        member(members, "color"@) == Some(Value::String(name)),
        name@ == "reset"@,
    ensures
        resolved(parent, members) == resolved(other, members),
        resolved(parent, members).color is None,
{
}

/// **An object without `text`, `translate` or `extra` shows nothing**, whatever
/// else it holds; nor do `null` and the empty list.
pub proof fn law_other_content_shows_nothing(component: Value, parent: Style)
    requires
        match component {
            Value::Object(obj) => member(obj@, "text"@) is None && member(obj@, "translate"@)
                is None && member(obj@, "extra"@) is None,
            Value::Array(items) => items@.len() == 0,
            Value::Null => true,
            _ => false,
        },
    ensures
        segments(component, parent) == Seq::<Segment>::empty(),
{
}

/// Adding a member leaves the others as they were.
proof fn lemma_member_push(members: Seq<(String, Value)>, entry: (String, Value), key: Seq<char>)
    ensures
        member(members.push(entry), key) == (if entry.0@ == key {
            Some(entry.1)
        } else {
            member(members, key)
        }),
{
    lemma_position(members, key);
    let more = members.push(entry);
    assert(more.drop_last() =~= members);
    assert(more.last() == entry);
    if let Some(i) = position(members, key) {
        assert(more[i] == members[i]);
    }
}

/// Lists one after the other are shown one after the other.
proof fn lemma_list_concat(
    head: Seq<Value>,
    items: Seq<Value>,
    skipped: nat,
    all: Seq<Value>,
    n: nat,
    style: Style,
)
    requires
        skipped <= items.len(),
        all == head + items.skip(skipped as int),
        n <= items.len() - skipped,
    ensures
        list_segments(all, 0, head.len() + n, style) == list_segments(head, 0, head.len(), style)
            + list_segments(items, skipped, skipped + n, style),
    decreases n,
{
    if n == 0 {
        lemma_list_prefix(head, all, head.len(), style);
        assert(list_segments(items, skipped, skipped, style) =~= Seq::<Segment>::empty());
        assert(list_segments(all, 0, head.len(), style) =~= list_segments(
            head,
            0,
            head.len(),
            style,
        ) + list_segments(items, skipped, skipped, style));
    } else {
        let m = (n - 1) as nat;
        lemma_list_concat(head, items, skipped, all, m, style);
        assert(all[head.len() as int + m] == items[skipped as int + m]);
        let last = segments(items[skipped as int + m], style);
        assert(list_segments(all, 0, head.len() + n, style) == list_segments(
            all,
            0,
            head.len() + m,
            style,
        ) + last);
        assert(list_segments(items, skipped, skipped + n, style) == list_segments(
            items,
            skipped,
            skipped + m,
            style,
        ) + last);
        assert(list_segments(head, 0, head.len(), style) + list_segments(
            items,
            skipped,
            skipped + m,
            style,
        ) + last =~= list_segments(head, 0, head.len(), style) + (list_segments(
            items,
            skipped,
            skipped + m,
            style,
        ) + last));
    }
}

/// The first items of a longer list are shown as they are on their own.
proof fn lemma_list_prefix(head: Seq<Value>, all: Seq<Value>, n: nat, style: Style)
    requires
        n <= head.len() <= all.len(),
        forall|i: int| 0 <= i < head.len() ==> all[i] == head[i],
    ensures
        list_segments(all, 0, n, style) == list_segments(head, 0, n, style),
    decreases n,
{
    if n > 0 {
        lemma_list_prefix(head, all, (n - 1) as nat, style);
        assert(all[n - 1] == head[n - 1]);
    }
}

/// The keys that matter to an object's style and content are not `extra`, and
/// those of the style are not `text`.
proof fn lemma_keys_differ()
    ensures
        "color"@ != "text"@,
        "bold"@ != "text"@,
        "italic"@ != "text"@,
        "underlined"@ != "text"@,
        "strikethrough"@ != "text"@,
        "obfuscated"@ != "text"@,
        "color"@ != "extra"@,
        "bold"@ != "extra"@,
        "italic"@ != "extra"@,
        "underlined"@ != "extra"@,
        "strikethrough"@ != "extra"@,
        "obfuscated"@ != "extra"@,
        "text"@ != "extra"@,
        "translate"@ != "extra"@,
        "fallback"@ != "extra"@,
        "with"@ != "extra"@,
{
    reveal_strlit("extra");
    reveal_strlit("color");
    reveal_strlit("bold");
    reveal_strlit("italic");
    reveal_strlit("underlined");
    reveal_strlit("strikethrough");
    reveal_strlit("obfuscated");
    reveal_strlit("text");
    reveal_strlit("translate");
    reveal_strlit("fallback");
    reveal_strlit("with");
    assert("color"@[0] == 'c');
    assert("extra"@[0] == 'e');
    assert("text"@[0] == 't');
    assert("bold"@[0] == 'b');
}

/// The children an object has of its own.
pub open spec fn children(members: Seq<(String, Value)>) -> Seq<Value> {
    match member(members, "extra"@) {
        Some(Value::Array(extra)) => extra@,
        _ => Seq::empty(),
    }
}

/// **A list is shorthand for its first element with the rest as `extra`**, behind
/// any children the element has of its own: the rest inherit the first element's
/// style.
pub proof fn law_list_is_shorthand_for_extra(
    items: Vec<Value>,
    first: Members,
    whole: Members,
    key: String,
    extra: Vec<Value>,
    parent: Style,
)
    requires
        items@.len() > 0,
        items@[0] == Value::Object(first),
        key@ == "extra"@,
        extra@ == children(first@) + items@.skip(1),
        whole@ == first@.push((key, Value::Array(extra))),
    ensures
        segments(Value::Array(items), parent) == segments(Value::Object(whole), parent),
{
    lemma_keys_differ();
    let entry = (key, Value::Array(extra));
    lemma_member_push(first@, entry, "color"@);
    lemma_member_push(first@, entry, "bold"@);
    lemma_member_push(first@, entry, "italic"@);
    lemma_member_push(first@, entry, "underlined"@);
    lemma_member_push(first@, entry, "strikethrough"@);
    lemma_member_push(first@, entry, "obfuscated"@);
    lemma_member_push(first@, entry, "text"@);
    lemma_member_push(first@, entry, "translate"@);
    lemma_member_push(first@, entry, "fallback"@);
    lemma_member_push(first@, entry, "with"@);
    lemma_member_push(first@, entry, "extra"@);
    let style = resolved(parent, first@);
    assert(resolved(parent, whole@) == style);
    assert(translation_segments(whole@, style) == translation_segments(first@, style));
    let own = children(first@);
    let rest = (items@.len() - 1) as nat;
    lemma_list_concat(own, items@, 1, extra@, rest, style);
    let content = match member(first@, "text"@) {
        Some(text) => literal_segments(text, style),
        None => match member(first@, "translate"@) {
            Some(Value::String(_)) => translation_segments(first@, style),
            _ => Seq::empty(),
        },
    };
    let before = list_segments(own, 0, own.len(), style);
    let after = list_segments(items@, 1, items@.len(), style);
    assert(segments(items@[0], parent) =~= content + before);
    assert(own_style(items@[0], parent) == style);
    assert(segments(Value::Array(items), parent) == content + before + after);
    assert(segments(Value::Object(whole), parent) == content + (before + after));
    assert(content + before + after =~= content + (before + after));
}

/// **A list that begins with a text is shorthand for an object with that text and
/// the rest as `extra`.** Numbers, booleans and `null` are texts here.
pub proof fn law_list_of_texts_is_shorthand_for_an_object(
    items: Vec<Value>,
    whole: Members,
    text: String,
    extra: String,
    rest: Vec<Value>,
    parent: Style,
)
    requires
        items@.len() > 0,
        !(items@[0] is Object || items@[0] is Array),
        text@ == "text"@,
        extra@ == "extra"@,
        rest@ == items@.skip(1),
        whole@ == seq![(text, items@[0]), (extra, Value::Array(rest))],
    ensures
        segments(Value::Array(items), parent) == segments(Value::Object(whole), parent),
{
    lemma_keys_differ();
    let empty = Seq::<(String, Value)>::empty();
    let first = empty.push((text, items@[0]));
    let entry = (extra, Value::Array(rest));
    assert(whole@ =~= first.push(entry));
    assert forall|key: Seq<char>| key != "text"@ && key != "extra"@ implies #[trigger] member(
        whole@,
        key,
    ) is None by {
        lemma_member_push(first, entry, key);
        lemma_member_push(empty, (text, items@[0]), key);
    }
    lemma_member_push(first, entry, "text"@);
    lemma_member_push(empty, (text, items@[0]), "text"@);
    lemma_member_push(first, entry, "extra"@);
    assert(member(whole@, "color"@) is None);
    assert(member(whole@, "bold"@) is None);
    assert(member(whole@, "italic"@) is None);
    assert(member(whole@, "underlined"@) is None);
    assert(member(whole@, "strikethrough"@) is None);
    assert(member(whole@, "obfuscated"@) is None);
    assert(resolved(parent, whole@) == parent);
    let none = Seq::<Value>::empty();
    assert(rest@ =~= none + items@.skip(1));
    lemma_list_concat(none, items@, 1, rest@, rest@.len(), parent);
    assert(list_segments(none, 0, 0, parent) =~= Seq::<Segment>::empty());
    let after = list_segments(items@, 1, items@.len(), parent);
    assert(Seq::<Segment>::empty() + after =~= after);
    assert(segments(items@[0], parent) == literal_segments(items@[0], parent));
}

/// Two RGB values no distance apart are the same.
proof fn lemma_no_distance(a: nat, b: nat)
    requires
        a < 0x100_0000,
        b < 0x100_0000,
        rgb_distance(a, b) == 0,
    ensures
        a == b,
{
    let (a_r, a_g, a_b) = rgb_channels(a);
    let (b_r, b_g, b_b) = rgb_channels(b);
    lemma_square(a_r as int - b_r as int);
    lemma_square(a_g as int - b_g as int);
    lemma_square(a_b as int - b_b as int);
}

/// A square is never negative, and zero for zero only.
proof fn lemma_square(x: int)
    by (nonlinear_arith)
    ensures
        x * x >= 0,
        x * x == 0 ==> x == 0,
{
}

/// **A legacy color given by its RGB value is kept exactly.**
pub proof fn law_exact_colors_are_kept(index: nat)
    requires
        index < 16,
    ensures
        nearest(COLORS@[index as int].1 as nat) == index,
{
    let rgb = COLORS@[index as int].1 as nat;
    assert(color_distance(rgb, index) == 0);
    assert forall|j: nat| j < index implies color_distance(rgb, index) < #[trigger] color_distance(
        rgb,
        j,
    ) by {
        let other = COLORS@[j as int].1 as nat;
        if color_distance(rgb, j) == 0 {
            assert(rgb < 0x100_0000 && other < 0x100_0000);
            lemma_no_distance(rgb, other);
            assert(false);
        }
    }
    assert(is_nearest(rgb, index));
    lemma_nearest_unique(rgb, index);
}

} // verus!
