//! What the runs of a component are, shape by shape, and what becomes of them.

use crate::chat::{
    active_state, argument_segments, dangling, legacy_text, lemma_member_smaller, list_segments,
    literal_segments, one, own_style, plain_text, reset_codes, run_codes, segments,
    translation_segments, without_codes, Active, Segment,
};
use crate::json::{lemma_position, member, number_text, position, same, Members, Value};
use crate::style::{plain_style, resolved, Style};
use vstd::prelude::*;

verus! {

// ─── Texts ───────────────────────────────────────────────────────────────────

/// **A text is one run in the style around it**: a string as it is, a number as it
/// prints, a boolean by its name. `null` is none.
pub proof fn law_texts_are_single_runs(component: Value, parent: Style)
    ensures
        component matches Value::String(text) ==> segments(component, parent) =~= seq![
            Segment { text: text@, style: parent },
        ],
        component matches Value::Number(number) ==> segments(component, parent) =~= seq![
            Segment { text: number_text(number), style: parent },
        ],
        component == Value::Bool(true) ==> segments(component, parent) =~= seq![
            Segment { text: "true"@, style: parent },
        ],
        component == Value::Bool(false) ==> segments(component, parent) =~= seq![
            Segment { text: "false"@, style: parent },
        ],
        component is Null ==> segments(component, parent).len() == 0,
        !(component is Array || component is Object) ==> own_style(component, parent) == parent,
{
}

// ─── Lists ───────────────────────────────────────────────────────────────────

/// **A list shows its items in order**, each after all before it, and all but the
/// first in the style of the first.
pub proof fn law_list_shows_every_item(
    items: Vec<Value>,
    longer: Vec<Value>,
    item: Value,
    parent: Style,
)
    requires
        longer@ == items@.push(item),
    ensures
        items@.len() == 0 ==> segments(Value::Array(items), parent).len() == 0 && segments(
            Value::Array(longer),
            parent,
        ) == segments(item, parent) && own_style(Value::Array(longer), parent) == own_style(
            item,
            parent,
        ),
        items@.len() > 0 ==> segments(Value::Array(longer), parent) == segments(
            Value::Array(items),
            parent,
        ) + segments(item, own_style(items@[0], parent)) && own_style(Value::Array(longer), parent)
            == own_style(Value::Array(items), parent) && own_style(Value::Array(items), parent)
            == own_style(items@[0], parent),
{
    if items@.len() == 0 {
        assert(longer@[0] == item);
        assert(list_segments(longer@, 1, 1, own_style(item, parent)) =~= Seq::<Segment>::empty());
        assert(segments(item, parent) + Seq::<Segment>::empty() =~= segments(item, parent));
    } else {
        let first = items@[0];
        let style = own_style(first, parent);
        assert(longer@[0] == first);
        lemma_list_grows(items@, longer@, item, 1, style);
        let n = items@.len();
        assert(segments(first, parent) + (list_segments(items@, 1, n, style) + segments(
            item,
            style,
        )) =~= segments(first, parent) + list_segments(items@, 1, n, style) + segments(
            item,
            style,
        ));
    }
}

/// One more item adds its runs.
proof fn lemma_list_grows(
    items: Seq<Value>,
    longer: Seq<Value>,
    item: Value,
    from: nat,
    style: Style,
)
    requires
        from <= items.len(),
        longer == items.push(item),
    ensures
        list_segments(longer, from, longer.len(), style) == list_segments(
            items,
            from,
            items.len(),
            style,
        ) + segments(item, style),
{
    lemma_list_same(items, longer, from, items.len(), style);
    assert(longer[items.len() as int] == item);
}

/// Lists that begin alike show the same as far as they do.
proof fn lemma_list_same(a: Seq<Value>, b: Seq<Value>, from: nat, to: nat, style: Style)
    requires
        to <= a.len() <= b.len(),
        forall|i: int| 0 <= i < to ==> a[i] == b[i],
    ensures
        list_segments(a, from, to, style) == list_segments(b, from, to, style),
    decreases to,
{
    if from < to {
        lemma_list_same(a, b, from, (to - 1) as nat, style);
        assert(a[to - 1] == b[to - 1]);
    }
}

// ─── Objects ─────────────────────────────────────────────────────────────────

/// Whether two objects have the same under every key but one.
pub open spec fn same_but(
    a: Seq<(String, Value)>,
    b: Seq<(String, Value)>,
    key: Seq<char>,
) -> bool {
    forall|other: Seq<char>| other != key ==> #[trigger] member(a, other) == member(b, other)
}

/// **The content of an object without children**: its `text` in its style, else
/// the `fallback` of its translation, else nothing unless it is translated with
/// arguments.
pub proof fn law_object_shows_its_content(obj: Members, parent: Style)
    requires
        !(member(obj@, "extra"@) matches Some(Value::Array(_))),
    ensures
        ({
            let runs = segments(Value::Object(obj), parent);
            let style = resolved(parent, obj@);
            &&& own_style(Value::Object(obj), parent) == style
            &&& match member(obj@, "text"@) {
                Some(Value::String(text)) => runs =~= seq![Segment { text: text@, style }],
                Some(Value::Number(number)) => runs =~= seq![
                    Segment { text: number_text(number), style },
                ],
                Some(Value::Bool(true)) => runs =~= seq![Segment { text: "true"@, style }],
                Some(Value::Bool(false)) => runs =~= seq![Segment { text: "false"@, style }],
                Some(_) => runs.len() == 0,
                None => match (member(obj@, "translate"@), member(obj@, "fallback"@)) {
                    (Some(Value::String(_)), Some(Value::String(fallback))) => runs =~= seq![
                        Segment { text: fallback@, style },
                    ],
                    (Some(Value::String(_)), _) => !(member(obj@, "with"@) matches Some(
                        Value::Array(_),
                    )) ==> runs.len() == 0,
                    _ => runs.len() == 0,
                },
            }
        }),
{
    let runs = segments(Value::Object(obj), parent);
    let style = resolved(parent, obj@);
    let none = Seq::<Segment>::empty();
    match member(obj@, "text"@) {
        Some(text) => {
            assert(literal_segments(text, style) + none =~= literal_segments(text, style));
        },
        None => {
            assert(translation_segments(obj@, style) + none =~= translation_segments(obj@, style));
            assert(none + none =~= none);
        },
    }
}

/// **A translation shows all of its arguments in order**, with one space between
/// neighbours, all in the style of the object: one argument more adds a space,
/// unless it is the first, and its own runs. Without arguments nothing is shown.
pub proof fn law_translation_shows_every_argument(
    obj: Members,
    longer: Members,
    args: Vec<Value>,
    more: Vec<Value>,
    arg: Value,
    parent: Style,
)
    requires
        member(obj@, "text"@) is None,
        member(obj@, "translate"@) matches Some(Value::String(_)),
        !(member(obj@, "fallback"@) matches Some(Value::String(_))),
        !(member(obj@, "extra"@) matches Some(Value::Array(_))),
        same_but(obj@, longer@, "with"@),
        member(obj@, "with"@) == Some(Value::Array(args)),
        member(longer@, "with"@) == Some(Value::Array(more)),
        more@ == args@.push(arg),
    ensures
        args@.len() == 0 ==> segments(Value::Object(obj), parent).len() == 0,
        segments(Value::Object(longer), parent) == segments(Value::Object(obj), parent) + (
        if args@.len() == 0 {
            Seq::empty()
        } else {
            seq![Segment { text: " "@, style: resolved(parent, obj@) }]
        }) + segments(arg, resolved(parent, obj@)),
{
    lemma_keys();
    let style = resolved(parent, obj@);
    assert(resolved(parent, longer@) == style);
    let none = Seq::<Segment>::empty();
    let before = argument_segments(args@, args@.len(), style);
    lemma_arguments_same(args@, more@, args@.len(), style);
    assert(more@[args@.len() as int] == arg);
    assert(translation_segments(obj@, style) == before);
    assert(translation_segments(longer@, style) == argument_segments(more@, more@.len(), style));
    assert(segments(Value::Object(obj), parent) =~= before);
    assert(segments(Value::Object(longer), parent) =~= argument_segments(
        more@,
        more@.len(),
        style,
    ));
    if args@.len() == 0 {
        assert(before =~= none);
    }
}

/// Arguments that begin alike show the same as far as they do.
proof fn lemma_arguments_same(a: Seq<Value>, b: Seq<Value>, n: nat, style: Style)
    requires
        n <= a.len() <= b.len(),
        forall|i: int| 0 <= i < n ==> a[i] == b[i],
    ensures
        argument_segments(a, n, style) == argument_segments(b, n, style),
    decreases n,
{
    if n > 0 {
        lemma_arguments_same(a, b, (n - 1) as nat, style);
        assert(a[n - 1] == b[n - 1]);
    }
}

/// **An object shows all of its children in order, behind its content**, in its
/// own style: an empty `extra` shows what none does, and one child more adds its
/// runs at the end.
pub proof fn law_object_shows_every_child(
    obj: Members,
    longer: Members,
    children: Vec<Value>,
    more: Vec<Value>,
    child: Value,
    parent: Style,
)
    requires
        same_but(obj@, longer@, "extra"@),
        member(obj@, "extra"@) == Some(Value::Array(children)),
        member(longer@, "extra"@) == Some(Value::Array(more)),
        more@ == children@.push(child),
    ensures
        segments(Value::Object(longer), parent) == segments(Value::Object(obj), parent) + segments(
            child,
            resolved(parent, obj@),
        ),
        resolved(parent, longer@) == resolved(parent, obj@),
{
    lemma_keys();
    let style = resolved(parent, obj@);
    assert(resolved(parent, longer@) == style);
    lemma_list_grows(children@, more@, child, 0, style);
    assert(translation_segments(longer@, style) == translation_segments(obj@, style));
    let content = match member(obj@, "text"@) {
        Some(text) => literal_segments(text, style),
        None => match member(obj@, "translate"@) {
            Some(Value::String(_)) => translation_segments(obj@, style),
            _ => Seq::empty(),
        },
    };
    let before = list_segments(children@, 0, children@.len(), style);
    assert(segments(Value::Object(obj), parent) == content + before);
    assert(segments(Value::Object(longer), parent) == content + (before + segments(child, style)));
    assert(content + (before + segments(child, style)) =~= content + before + segments(
        child,
        style,
    ));
}

/// **An `extra` that is empty, or no list, shows nothing.**
pub proof fn law_empty_extra_shows_nothing(
    obj: Members,
    without: Members,
    children: Vec<Value>,
    parent: Style,
)
    requires
        same_but(obj@, without@, "extra"@),
        member(obj@, "extra"@) == Some(Value::Array(children)),
        children@.len() == 0,
        !(member(without@, "extra"@) matches Some(Value::Array(_))),
    ensures
        segments(Value::Object(obj), parent) == segments(Value::Object(without), parent),
{
    lemma_keys();
    let style = resolved(parent, obj@);
    assert(resolved(parent, without@) == style);
    assert(translation_segments(without@, style) == translation_segments(obj@, style));
    assert(list_segments(children@, 0, 0, style) =~= Seq::<Segment>::empty());
}

/// The keys that matter to an object are different from `extra` and from `with`.
proof fn lemma_keys()
    ensures
        forall|key: Seq<char>| #[trigger]
            is_key(key) ==> key != "extra"@ && key != "with"@,
        is_key("color"@) && is_key("bold"@) && is_key("italic"@) && is_key("underlined"@) && is_key(
            "strikethrough"@,
        ) && is_key("obfuscated"@) && is_key("text"@) && is_key("translate"@) && is_key(
            "fallback"@,
        ),
        "extra"@ != "with"@,
{
    reveal_strlit("extra");
    reveal_strlit("with");
    reveal_strlit("color");
    reveal_strlit("bold");
    reveal_strlit("italic");
    reveal_strlit("underlined");
    reveal_strlit("strikethrough");
    reveal_strlit("obfuscated");
    reveal_strlit("text");
    reveal_strlit("translate");
    reveal_strlit("fallback");
    assert("color"@[0] == 'c');
    assert("extra"@[0] == 'e');
    assert("bold"@[0] == 'b');
    assert("text"@[0] == 't');
    assert("with"@[0] == 'w');
}

/// The keys that an object's style and content are read from, but for the lists.
spec fn is_key(key: Seq<char>) -> bool {
    ||| key == "color"@
    ||| key == "bold"@
    ||| key == "italic"@
    ||| key == "underlined"@
    ||| key == "strikethrough"@
    ||| key == "obfuscated"@
    ||| key == "text"@
    ||| key == "translate"@
    ||| key == "fallback"@
}

// ─── Plain text ──────────────────────────────────────────────────────────────

/// **Plain text is the text without its codes**: each `§` goes with the character
/// behind it, a `§` at the end alone, and every other character stays.
pub proof fn law_codes_are_dropped(text: Seq<char>, c: char)
    ensures
        without_codes(seq!['§', c] + text) == without_codes(text),
        c != '§' ==> without_codes(seq![c] + text) == seq![c] + without_codes(text),
        without_codes(seq!['§']).len() == 0,
        without_codes(Seq::<char>::empty()).len() == 0,
        !text.contains('§') ==> without_codes(text) == text,
{
    assert((seq!['§', c] + text).skip(2) =~= text);
    assert((seq![c] + text).skip(1) =~= text);
    if !text.contains('§') {
        lemma_no_codes(text);
    }
}

/// Text without a code in it is left as it is.
proof fn lemma_no_codes(text: Seq<char>)
    requires
        !text.contains('§'),
    ensures
        without_codes(text) == text,
    decreases text.len(),
{
    if text.len() > 0 {
        let rest = text.skip(1);
        assert(text.contains(text[0]));
        assert forall|i: int| 0 <= i < rest.len() implies rest[i] != '§' by {
            assert(rest[i] == text[i + 1]);
        }
        lemma_no_codes(rest);
        assert(seq![text[0]] + rest =~= text);
    } else {
        assert(without_codes(text) =~= text);
    }
}

/// **The plain text of runs is that of each, one after the other.**
pub proof fn law_plain_text_goes_run_by_run(before: Seq<Segment>, after: Seq<Segment>)
    ensures
        plain_text(before + after) == plain_text(before) + plain_text(after),
        after.len() == 1 ==> plain_text(after) == without_codes(after[0].text),
        after.len() == 0 ==> plain_text(after).len() == 0,
    decreases after.len(),
{
    if after.len() == 0 {
        assert(before + after =~= before);
        assert(plain_text(before) + plain_text(after) =~= plain_text(before));
    } else {
        let most = after.drop_last();
        law_plain_text_goes_run_by_run(before, most);
        assert((before + after).drop_last() =~= before + most);
        assert((before + after).last() == after.last());
        let last = without_codes(after.last().text);
        assert(plain_text(before) + plain_text(most) + last =~= plain_text(before) + (plain_text(
            most,
        ) + last));
        if after.len() == 1 {
            assert(most =~= Seq::<Segment>::empty());
            assert(plain_text(most) + last =~= last);
        }
    }
}

/// The texts of runs, without their styles.
pub open spec fn texts(runs: Seq<Segment>) -> Seq<Seq<char>> {
    Seq::new(runs.len(), |i: int| runs[i].text)
}

/// **Styling has no part in plain text**: whatever style is around a component, its
/// texts are the same, and so is its plain text.
pub proof fn law_plain_text_has_no_style(component: Value, one: Style, other: Style)
    ensures
        texts(segments(component, one)) == texts(segments(component, other)),
        plain_text(segments(component, one)) == plain_text(segments(component, other)),
{
    lemma_texts(component, one, other);
    lemma_plain_texts(segments(component, one), segments(component, other));
}

/// The same texts make the same plain text.
proof fn lemma_plain_texts(a: Seq<Segment>, b: Seq<Segment>)
    requires
        texts(a) == texts(b),
    ensures
        plain_text(a) == plain_text(b),
    decreases a.len(),
{
    assert(texts(a).len() == a.len() && texts(b).len() == b.len());
    if a.len() > 0 {
        assert(texts(a)[a.len() - 1] == a.last().text && texts(b)[b.len() - 1] == b.last().text);
        assert(texts(a)[a.len() - 1] == texts(b)[b.len() - 1]);
        assert(texts(a.drop_last()) =~= texts(a).drop_last());
        assert(texts(b.drop_last()) =~= texts(b).drop_last());
        lemma_plain_texts(a.drop_last(), b.drop_last());
    }
}

/// The texts of runs that follow each other.
proof fn lemma_texts_concat(a: Seq<Segment>, b: Seq<Segment>)
    ensures
        texts(a + b) == texts(a) + texts(b),
{
    assert(texts(a + b) =~= texts(a) + texts(b));
}

/// The texts of a component do not depend on the style around it.
proof fn lemma_texts(component: Value, one: Style, other: Style)
    ensures
        texts(segments(component, one)) == texts(segments(component, other)),
    decreases component, 0nat,
{
    match component {
        Value::Array(items) => {
            if items@.len() > 0 {
                let first = items@[0];
                let (a, b) = (own_style(first, one), own_style(first, other));
                lemma_texts(first, one, other);
                lemma_list_texts(items@, 1, items@.len(), a, b);
                lemma_texts_concat(segments(first, one), list_segments(items@, 1, items@.len(), a));
                lemma_texts_concat(
                    segments(first, other),
                    list_segments(items@, 1, items@.len(), b),
                );
            }
        },
        Value::Object(obj) => {
            let (a, b) = (resolved(one, obj@), resolved(other, obj@));
            let (content_a, content_b) = match member(obj@, "text"@) {
                Some(text) => (literal_segments(text, a), literal_segments(text, b)),
                None => match member(obj@, "translate"@) {
                    Some(Value::String(_)) => (
                        translation_segments(obj@, a),
                        translation_segments(obj@, b),
                    ),
                    _ => (Seq::empty(), Seq::empty()),
                },
            };
            lemma_translation_texts(obj@, a, b);
            assert(texts(content_a) =~= texts(content_b));
            lemma_member_smaller(obj@, "extra"@);
            let (children_a, children_b) = match member(obj@, "extra"@) {
                Some(Value::Array(extra)) => {
                    lemma_list_texts(extra@, 0, extra@.len(), a, b);
                    (
                        list_segments(extra@, 0, extra@.len(), a),
                        list_segments(extra@, 0, extra@.len(), b),
                    )
                },
                _ => (Seq::empty(), Seq::empty()),
            };
            assert(texts(children_a) =~= texts(children_b));
            lemma_texts_concat(content_a, children_a);
            lemma_texts_concat(content_b, children_b);
            assert(segments(component, one) == content_a + children_a);
            assert(segments(component, other) == content_b + children_b);
        },
        _ => {
            assert(texts(segments(component, one)) =~= texts(segments(component, other)));
        },
    }
}

/// Nor do those of a list.
proof fn lemma_list_texts(items: Seq<Value>, from: nat, to: nat, one: Style, other: Style)
    ensures
        texts(list_segments(items, from, to, one)) == texts(list_segments(items, from, to, other)),
    decreases items, to,
{
    if from < to <= items.len() {
        let n = (to - 1) as nat;
        lemma_list_texts(items, from, n, one, other);
        lemma_texts(items[to - 1], one, other);
        lemma_texts_concat(list_segments(items, from, n, one), segments(items[to - 1], one));
        lemma_texts_concat(list_segments(items, from, n, other), segments(items[to - 1], other));
    } else {
        assert(texts(list_segments(items, from, to, one)) =~= texts(
            list_segments(items, from, to, other),
        ));
    }
}

/// Nor those of a translated text.
proof fn lemma_translation_texts(obj: Seq<(String, Value)>, one: Style, other: Style)
    ensures
        texts(translation_segments(obj, one)) == texts(translation_segments(obj, other)),
    decreases obj, 0nat,
{
    lemma_member_smaller(obj, "with"@);
    if let Some(Value::Array(args)) = member(obj, "with"@) {
        lemma_argument_texts(args@, args@.len(), one, other);
    }
    assert(texts(translation_segments(obj, one)) =~= texts(translation_segments(obj, other)));
}

/// Nor those of its arguments.
proof fn lemma_argument_texts(args: Seq<Value>, n: nat, style: Style, other: Style)
    ensures
        texts(argument_segments(args, n, style)) == texts(argument_segments(args, n, other)),
    decreases args, n,
{
    if 0 < n <= args.len() {
        let m = (n - 1) as nat;
        lemma_argument_texts(args, m, style, other);
        lemma_texts(args[n - 1], style, other);
        let space_one = if n > 1 {
            one(" "@, style)
        } else {
            Seq::empty()
        };
        let space_other = if n > 1 {
            one(" "@, other)
        } else {
            Seq::empty()
        };
        assert(texts(space_one) =~= texts(space_other));
        lemma_texts_concat(argument_segments(args, m, style), space_one);
        lemma_texts_concat(argument_segments(args, m, other), space_other);
        lemma_texts_concat(
            argument_segments(args, m, style) + space_one,
            segments(args[n - 1], style),
        );
        lemma_texts_concat(
            argument_segments(args, m, other) + space_other,
            segments(args[n - 1], other),
        );
    } else {
        assert(texts(argument_segments(args, n, style)) =~= texts(argument_segments(args, n, other)));
    }
}

/// **The plain text of a list is that of its items, one after the other.**
pub proof fn law_plain_text_of_a_list(items: Vec<Value>, longer: Vec<Value>, item: Value)
    requires
        longer@ == items@.push(item),
    ensures
        plain_text(segments(Value::Array(longer), plain_style())) == plain_text(
            segments(Value::Array(items), plain_style()),
        ) + plain_text(segments(item, plain_style())),
{
    let before = segments(Value::Array(items), plain_style());
    law_list_shows_every_item(items, longer, item, plain_style());
    if items@.len() == 0 {
        assert(plain_text(before) =~= Seq::<char>::empty());
        assert(plain_text(before) + plain_text(segments(item, plain_style())) =~= plain_text(
            segments(item, plain_style()),
        ));
    } else {
        let style = own_style(items@[0], plain_style());
        law_plain_text_goes_run_by_run(before, segments(item, style));
        law_plain_text_has_no_style(item, style, plain_style());
    }
}

// ─── Legacy text ─────────────────────────────────────────────────────────────

/// **Text goes out as it came in, behind the codes it needs**: a run adds its codes
/// and its own characters to what is written, an empty run nothing, and no run
/// changes what was written before it.
pub proof fn law_runs_go_out_verbatim(runs: Seq<Segment>, run: Segment)
    ensures
        legacy_text(Seq::<Segment>::empty()).len() == 0,
        run.text.len() > 0 ==> legacy_text(runs.push(run)) == legacy_text(runs) + run_codes(
            active_state(runs),
            run.style,
        ) + run.text,
        run.text.len() == 0 ==> legacy_text(runs.push(run)) == legacy_text(runs),
{
    let more = runs.push(run);
    assert(more.drop_last() =~= runs);
    assert(more.last() == run);
    if run.text.len() > 0 {
        assert(legacy_text(runs) + (run_codes(active_state(runs), run.style) + run.text)
            =~= legacy_text(runs) + run_codes(active_state(runs), run.style) + run.text);
    } else {
        assert(legacy_text(runs) + Seq::<char>::empty() =~= legacy_text(runs));
    }
}

/// **The writer forgets nothing it can know**: after a text without codes it knows
/// the client's style, an empty run changes nothing, and only a text that ends in
/// a `§` without its code leaves one waiting.
pub proof fn law_writer_knows_what_it_can(runs: Seq<Segment>, run: Segment)
    ensures
        active_state(Seq::<Segment>::empty()) == Active::Known(plain_style()),
        run.text.len() == 0 ==> active_state(runs.push(run)) == active_state(runs),
        run.text.len() > 0 && !run.text.contains('§') ==> active_state(runs.push(run))
            == Active::Known(run.style),
        run.text.contains('§') ==> active_state(runs.push(run)) == (if dangling(run.text) {
            Active::Waiting
        } else {
            Active::Unknown
        }),
        dangling(run.text) ==> run.text.len() > 0 && run.text.last() == '§',
{
    assert(runs.push(run).drop_last() =~= runs);
    assert(runs.push(run).last() == run);
    if run.text.contains('§') {
        assert(run.text.len() > 0);
    } else if run.text.len() > 0 {
        lemma_not_dangling(run.text);
    }
    if dangling(run.text) {
        lemma_dangling_end(run.text);
    }
}

/// Text without a code in it leaves none waiting.
proof fn lemma_not_dangling(text: Seq<char>)
    requires
        !text.contains('§'),
    ensures
        !dangling(text),
    decreases text.len(),
{
    if text.len() > 0 {
        assert(text.contains(text[0]));
        let rest = text.skip(1);
        assert forall|i: int| 0 <= i < rest.len() implies rest[i] != '§' by {
            assert(rest[i] == text[i + 1]);
        }
        lemma_not_dangling(rest);
    }
}

/// A waiting `§` is the last character.
proof fn lemma_dangling_end(text: Seq<char>)
    requires
        dangling(text),
    ensures
        text.len() > 0,
        text.last() == '§',
    decreases text.len(),
{
    if text[0] == '§' {
        if text.len() > 1 {
            lemma_dangling_end(text.skip(2));
        }
    } else {
        lemma_dangling_end(text.skip(1));
    }
}

/// **Behind a reset a run writes what a fresh client needs, and no more.**
pub proof fn law_reset_starts_afresh(active: Active, style: Style)
    requires
        !(active matches Active::Known(on) && on.covered_by(style)),
    ensures
        run_codes(active, style) == reset_codes(active) + run_codes(
            Active::Known(plain_style()),
            style,
        ),
        reset_codes(active) == (if active is Waiting {
            seq!['r']
        } else {
            seq!['§', 'r']
        }),
{
}

/// **A `§` waits when no character is left to be its code.**
pub proof fn law_waiting_is_having_no_code(text: Seq<char>, c: char)
    ensures
        dangling(seq!['§']),
        !dangling(Seq::<char>::empty()),
        c != '§' ==> dangling(seq![c] + text) == dangling(text),
        dangling(seq!['§', c] + text) == dangling(text),
{
    assert((seq!['§', c] + text).skip(2) =~= text);
    assert((seq![c] + text).skip(1) =~= text);
}

// ─── Clones ──────────────────────────────────────────────────────────────────

/// **A clone reads and shows the same as the value**: it has the same runs in every
/// style around it.
pub proof fn law_clone_shows_the_same(value: Value, clone: Value, parent: Style)
    requires
        same(value, clone),
    ensures
        segments(clone, parent) == segments(value, parent),
        own_style(clone, parent) == own_style(value, parent),
    decreases value, 0nat,
{
    match (value, clone) {
        (Value::Array(x), Value::Array(y)) => {
            if x@.len() > 0 {
                assert(same(x@[0], y@[0]));
                law_clone_shows_the_same(x@[0], y@[0], parent);
                lemma_clone_list(x@, y@, 1, x@.len(), own_style(x@[0], parent));
            }
        },
        (Value::Object(x), Value::Object(y)) => {
            lemma_clone_style(x@, y@, parent);
            let style = resolved(parent, x@);
            lemma_clone_member(x@, y@, "text"@);
            lemma_clone_member(x@, y@, "translate"@);
            lemma_clone_member(x@, y@, "extra"@);
            lemma_clone_translation(x@, y@, style);
            lemma_member_smaller(x@, "extra"@);
            if let (Some(Value::Array(a)), Some(Value::Array(b))) = (
                member(x@, "extra"@),
                member(y@, "extra"@),
            ) {
                lemma_clone_list(a@, b@, 0, a@.len(), style);
            }
        },
        _ => {},
    }
}

/// Whether two objects are the same member by member.
spec fn same_members(x: Seq<(String, Value)>, y: Seq<(String, Value)>) -> bool {
    &&& x.len() == y.len()
    &&& forall|i: int|
        #![trigger x[i]]
        0 <= i < x.len() ==> x[i].0@ == y[i].0@ && same(x[i].1, y[i].1)
}

/// The clone of an object has the same under every key.
proof fn lemma_clone_member(x: Seq<(String, Value)>, y: Seq<(String, Value)>, key: Seq<char>)
    requires
        same_members(x, y),
    ensures
        position(x, key) == position(y, key),
        match (member(x, key), member(y, key)) {
            (Some(a), Some(b)) => same(a, b),
            (None, None) => true,
            _ => false,
        },
    decreases x.len(),
{
    lemma_position(x, key);
    if x.len() > 0 {
        assert(x[x.len() - 1].0@ == y[y.len() - 1].0@);
        let (a, b) = (x.drop_last(), y.drop_last());
        assert forall|i: int| #![trigger a[i]] 0 <= i < a.len() implies a[i].0@ == b[i].0@ && same(
            a[i].1,
            b[i].1,
        ) by {
            assert(x[i].0@ == y[i].0@);
        }
        lemma_clone_member(a, b, key);
        if let Some(i) = position(x, key) {
            assert(x[i].0@ == y[i].0@ && same(x[i].1, y[i].1));
        }
    }
}

/// The clone of an object has the same style.
proof fn lemma_clone_style(x: Seq<(String, Value)>, y: Seq<(String, Value)>, parent: Style)
    requires
        same_members(x, y),
    ensures
        resolved(parent, x) == resolved(parent, y),
{
    lemma_clone_member(x, y, "color"@);
    lemma_clone_member(x, y, "bold"@);
    lemma_clone_member(x, y, "italic"@);
    lemma_clone_member(x, y, "underlined"@);
    lemma_clone_member(x, y, "strikethrough"@);
    lemma_clone_member(x, y, "obfuscated"@);
}

/// The clone of a translation shows the same.
proof fn lemma_clone_translation(
    x: Seq<(String, Value)>,
    y: Seq<(String, Value)>,
    style: Style,
)
    requires
        same_members(x, y),
    ensures
        translation_segments(x, style) == translation_segments(y, style),
    decreases x, 0nat,
{
    lemma_clone_member(x, y, "fallback"@);
    lemma_clone_member(x, y, "with"@);
    lemma_member_smaller(x, "with"@);
    if let (Some(Value::Array(a)), Some(Value::Array(b))) = (
        member(x, "with"@),
        member(y, "with"@),
    ) {
        lemma_clone_arguments(a@, b@, a@.len(), style);
    }
}

/// The clone of a list shows the same.
proof fn lemma_clone_list(a: Seq<Value>, b: Seq<Value>, from: nat, to: nat, style: Style)
    requires
        a.len() == b.len(),
        forall|i: int| #![trigger a[i]] 0 <= i < a.len() ==> same(a[i], b[i]),
    ensures
        list_segments(a, from, to, style) == list_segments(b, from, to, style),
    decreases a, to,
{
    if from < to <= a.len() {
        lemma_clone_list(a, b, from, (to - 1) as nat, style);
        assert(same(a[to - 1], b[to - 1]));
        law_clone_shows_the_same(a[to - 1], b[to - 1], style);
    }
}

/// The clones of arguments show the same.
proof fn lemma_clone_arguments(a: Seq<Value>, b: Seq<Value>, n: nat, style: Style)
    requires
        a.len() == b.len(),
        forall|i: int| #![trigger a[i]] 0 <= i < a.len() ==> same(a[i], b[i]),
    ensures
        argument_segments(a, n, style) == argument_segments(b, n, style),
    decreases a, n,
{
    if 0 < n <= a.len() {
        lemma_clone_arguments(a, b, (n - 1) as nat, style);
        assert(same(a[n - 1], b[n - 1]));
        law_clone_shows_the_same(a[n - 1], b[n - 1], style);
    }
}

} // verus!
