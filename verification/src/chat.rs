//! Chat-component to legacy-text conversion.
//!
//! A MOTD is either a plain string or a Chat-component object (`{"text": …}`,
//! `{"extra": […]}`), so a status keeps it as raw JSON. [`to_legacy_text`]
//! renders both shapes into the `§`-coded legacy format understood by server
//! lists, MOTD tooling and plain logs; [`to_plain_text`] drops the styling
//! instead.
//!
//! Supported:
//!
//! * every component shape: string, array and object, with nested `extra`
//!   children and `with` arguments;
//! * colors: the 16 legacy names, `"reset"` and `"#rrggbb"`, the latter
//!   downgraded to the nearest legacy color, since the format carries no 24-bit
//!   color;
//! * styles: `bold`, `italic`, `underlined`, `strikethrough` and `obfuscated`,
//!   inherited from the parent component unless overridden.
//!
//! Legacy codes inside a component's text are that component's own business: a
//! client applies them over the style around them, so [`to_legacy_text`] writes
//! the text verbatim, and can then not assume that a client that has read such
//! text is still in the state it left it in. [`to_plain_text`] drops the codes
//! with the rest of the styling, since a client shows no formatting at all.
//!
//! Anything the legacy format cannot express is skipped: `score`, `selector`,
//! `keybind`, `nbt` and `object` sprites contribute no text. `translate` is
//! rendered best-effort from `fallback` or the `with` arguments, since the real
//! text lives in the client's language files.
//!
//! A component is first taken apart into text runs with their styles
//! ([`segments`]), and the runs are then written out ([`legacy_text`],
//! [`plain_text`]).

use crate::json::{
    get, lemma_position, member, number_string, number_text, position, Members, Value,
};
use crate::style::{lemma_resolved_wf, plain_style, resolved, Style, COLORS};
use crate::text::{chars_of, contains_char};
use vstd::prelude::*;

verus! {

// ─── Traversal ───────────────────────────────────────────────────────────────

/// A literal text run and the style it is shown in.
#[derive(Debug, PartialEq)]
pub struct Run {
    pub text: String,
    pub style: Style,
}

/// A run's characters and style.
#[verifier::ext_equal]
pub struct Segment {
    pub text: Seq<char>,
    pub style: Style,
}

impl View for Run {
    type V = Segment;

    open spec fn view(&self) -> Segment {
        Segment { text: self.text@, style: self.style }
    }
}

/// The segments of a list of runs.
pub open spec fn segments_of(runs: Seq<Run>) -> Seq<Segment> {
    runs.map_values(|run: Run| run@)
}

/// The segment of `text` in `style`, as a list of its own.
pub open spec fn one(text: Seq<char>, style: Style) -> Seq<Segment> {
    seq![Segment { text, style }]
}

/// The style of a component's own content, which its children inherit.
pub open spec fn own_style(component: Value, parent: Style) -> Style
    decreases component,
{
    match component {
        Value::Array(items) => if items@.len() == 0 {
            parent
        } else {
            own_style(items@[0], parent)
        },
        Value::Object(obj) => resolved(parent, obj@),
        _ => parent,
    }
}

/// What a value contributes where a text is wanted: strings, numbers and
/// booleans their text, anything else nothing.
pub open spec fn literal_segments(value: Value, style: Style) -> Seq<Segment> {
    match value {
        Value::String(text) => one(text@, style),
        Value::Number(number) => one(number_text(number), style),
        Value::Bool(value) => one(
            if value {
                "true"@
            } else {
                "false"@
            },
            style,
        ),
        _ => Seq::empty(),
    }
}

/// A member of an object is structurally smaller than the object's members.
pub proof fn lemma_member_smaller(members: Seq<(String, Value)>, key: Seq<char>)
    ensures
        member(members, key) matches Some(value) ==> decreases_to!(members => value),
{
    lemma_position(members, key);
    if let Some(i) = position(members, key) {
        assert(decreases_to!(members => members[i]));
        assert(decreases_to!(members[i] => members[i].1));
    }
}

/// The text runs of a component, each with the style resolved for it.
///
/// A list stands for its first element with the rest as children, so the rest
/// inherit the first element's style. An object shows its `text`, or for want
/// of one its translation, and then the children in `extra`.
pub open spec fn segments(component: Value, parent: Style) -> Seq<Segment>
    decreases component, 0nat,
{
    match component {
        Value::String(text) => one(text@, parent),
        Value::Array(items) => if items@.len() == 0 {
            Seq::empty()
        } else {
            segments(items@[0], parent) + list_segments(
                items@,
                1,
                items@.len(),
                own_style(items@[0], parent),
            )
        },
        Value::Object(obj) => {
            let style = resolved(parent, obj@);
            proof {
                lemma_member_smaller(obj@, "extra"@);
            }
            let content = match member(obj@, "text"@) {
                Some(text) => literal_segments(text, style),
                None => match member(obj@, "translate"@) {
                    Some(Value::String(_)) => translation_segments(obj@, style),
                    _ => Seq::empty(),
                },
            };
            let children = match member(obj@, "extra"@) {
                Some(Value::Array(extra)) => list_segments(extra@, 0, extra@.len(), style),
                _ => Seq::empty(),
            };
            content + children
        },
        Value::Number(_) => literal_segments(component, parent),
        Value::Bool(_) => literal_segments(component, parent),
        Value::Null => Seq::empty(),
    }
}

/// What stands in for a translated text: the object's `fallback`, else its
/// `with` arguments.
pub open spec fn translation_segments(obj: Seq<(String, Value)>, style: Style) -> Seq<Segment>
    decreases obj, 0nat,
{
    match member(obj, "fallback"@) {
        Some(Value::String(fallback)) => one(fallback@, style),
        _ => match member(obj, "with"@) {
            Some(Value::Array(args)) => {
                proof {
                    lemma_member_smaller(obj, "with"@);
                }
                argument_segments(args@, args@.len(), style)
            },
            _ => Seq::empty(),
        },
    }
}

/// The segments of `items[from..to]`, all under one parent style.
pub open spec fn list_segments(items: Seq<Value>, from: nat, to: nat, style: Style) -> Seq<Segment>
    decreases items, to,
{
    if to <= from || to > items.len() {
        Seq::empty()
    } else {
        list_segments(items, from, (to - 1) as nat, style) + segments(items[to - 1], style)
    }
}

/// The segments of the first `n` translation arguments, joined by spaces.
pub open spec fn argument_segments(args: Seq<Value>, n: nat, style: Style) -> Seq<Segment>
    decreases args, n,
{
    if n == 0 || n > args.len() {
        Seq::empty()
    } else {
        let space = if n > 1 {
            one(" "@, style)
        } else {
            Seq::empty()
        };
        argument_segments(args, (n - 1) as nat, style) + space + segments(args[n - 1], style)
    }
}

/// Every segment's color is one of the sixteen.
pub open spec fn all_wf(segments: Seq<Segment>) -> bool {
    forall|i: int| 0 <= i < segments.len() ==> (#[trigger] segments[i]).style.wf()
}

/// A component under a well-formed style resolves to well-formed styles only.
pub proof fn lemma_segments_wf(component: Value, parent: Style)
    requires
        parent.wf(),
    ensures
        all_wf(segments(component, parent)),
        own_style(component, parent).wf(),
    decreases component, 0nat,
{
    match component {
        Value::Array(items) => {
            if items@.len() > 0 {
                lemma_segments_wf(items@[0], parent);
                lemma_list_wf(items@, 1, items@.len(), own_style(items@[0], parent));
            }
        },
        Value::Object(obj) => {
            let style = resolved(parent, obj@);
            lemma_resolved_wf(parent, obj@);
            lemma_member_smaller(obj@, "extra"@);
            lemma_translation_wf(obj@, style);
            if let Some(Value::Array(extra)) = member(obj@, "extra"@) {
                lemma_list_wf(extra@, 0, extra@.len(), style);
            }
        },
        _ => {},
    }
}

/// So does what stands in for a translated text.
proof fn lemma_translation_wf(obj: Seq<(String, Value)>, style: Style)
    requires
        style.wf(),
    ensures
        all_wf(translation_segments(obj, style)),
    decreases obj, 0nat,
{
    lemma_member_smaller(obj, "with"@);
    if let Some(Value::Array(args)) = member(obj, "with"@) {
        lemma_arguments_wf(args@, args@.len(), style);
    }
}

/// So does a list.
proof fn lemma_list_wf(items: Seq<Value>, from: nat, to: nat, style: Style)
    requires
        style.wf(),
    ensures
        all_wf(list_segments(items, from, to, style)),
    decreases items, to,
{
    if from < to <= items.len() {
        lemma_list_wf(items, from, (to - 1) as nat, style);
        lemma_segments_wf(items[to - 1], style);
    }
}

/// So do the arguments of a translated text.
proof fn lemma_arguments_wf(args: Seq<Value>, n: nat, style: Style)
    requires
        style.wf(),
    ensures
        all_wf(argument_segments(args, n, style)),
    decreases args, n,
{
    if 0 < n <= args.len() {
        lemma_arguments_wf(args, (n - 1) as nat, style);
        lemma_segments_wf(args[n - 1], style);
    }
}

/// Hand a text run to the list of runs.
fn emit(text: &str, style: Style, runs: &mut Vec<Run>)
    ensures
        segments_of(final(runs)@) == segments_of(old(runs)@) + one(text@, style),
{
    runs.push(Run { text: text.to_owned(), style });
    assert(segments_of(runs@) =~= segments_of(old(runs)@) + one(text@, style));
}

/// Walk a component tree, adding every literal text run to `runs` along with
/// the style resolved for it. Returns the style the component's own content
/// used, which children inherit.
pub fn walk(component: &Value, parent: Style, runs: &mut Vec<Run>) -> (res: Style)
    requires
        parent.wf(),
    ensures
        segments_of(final(runs)@) == segments_of(old(runs)@) + segments(*component, parent),
        res == own_style(*component, parent),
        res.wf(),
    decreases component,
{
    let ghost before = segments_of(runs@);
    match component {
        // A bare string is shorthand for an object with that `text`.
        Value::String(text) => {
            emit(text.as_str(), parent, runs);
            parent
        },
        // A list is shorthand for its first element with the rest as `extra`,
        // so the first element's style is what the rest inherit.
        Value::Array(items) => {
            if items.len() == 0 {
                assert(before + segments(*component, parent) =~= before);
                return parent;
            }
            let inherited = walk(&items[0], parent, runs);
            let ghost first = segments_of(runs@);
            let mut i: usize = 1;
            assert(first + list_segments(items@, 1, 1, inherited) =~= first);
            while i < items.len()
                invariant
                    1 <= i <= items@.len(),
                    inherited.wf(),
                    decreases_to!(component => items@),
                    segments_of(runs@) == first + list_segments(items@, 1, i as nat, inherited),
                decreases items.len() - i,
            {
                assert(decreases_to!(items@ => items@[i as int]));
                walk(&items[i], inherited, runs);
                i = i + 1;
                assert(segments_of(runs@) =~= first + list_segments(
                    items@,
                    1,
                    i as nat,
                    inherited,
                ));
            }
            assert(segments_of(runs@) =~= before + segments(*component, parent));
            inherited
        },
        Value::Object(obj) => {
            let style = Style::resolve(parent, obj);
            // Content, in the order of the client's auto-detection when an
            // object carries several content keys.
            if let Some(text) = get(obj, "text") {
                emit_literal(text, style, runs);
            } else {
                match get(obj, "translate") {
                    Some(Value::String(_)) => emit_translation(obj, style, runs),
                    _ => {
                        assert(segments_of(runs@) =~= before + Seq::<Segment>::empty());
                    },
                }
            }
            let ghost content = segments_of(runs@);
            match get(obj, "extra") {
                Some(Value::Array(extra)) => {
                    proof {
                        lemma_member_smaller(obj@, "extra"@);
                    }
                    let mut i: usize = 0;
                    assert(content + list_segments(extra@, 0, 0, style) =~= content);
                    while i < extra.len()
                        invariant
                            i <= extra@.len(),
                            style.wf(),
                            decreases_to!(component => extra@),
                            segments_of(runs@) == content + list_segments(
                                extra@,
                                0,
                                i as nat,
                                style,
                            ),
                        decreases extra.len() - i,
                    {
                        assert(decreases_to!(extra@ => extra@[i as int]));
                        walk(&extra[i], style, runs);
                        i = i + 1;
                        assert(segments_of(runs@) =~= content + list_segments(
                            extra@,
                            0,
                            i as nat,
                            style,
                        ));
                    }
                },
                _ => {},
            }
            assert(segments_of(runs@) =~= before + segments(*component, parent));
            style
        },
        // Numbers and booleans are shorthand for the text they stringify to;
        // `null` carries no text at all.
        Value::Number(_) | Value::Bool(_) => {
            emit_literal(component, parent, runs);
            parent
        },
        Value::Null => {
            assert(before + segments(*component, parent) =~= before);
            parent
        },
    }
}

/// Emit a component position that carries text: a `text` value, or a shorthand
/// string, number or boolean standing in for one.
pub fn emit_literal(value: &Value, style: Style, runs: &mut Vec<Run>)
    ensures
        segments_of(final(runs)@) == segments_of(old(runs)@) + literal_segments(*value, style),
{
    match value {
        Value::String(text) => emit(text.as_str(), style, runs),
        Value::Number(number) => emit(number_string(number).as_str(), style, runs),
        Value::Bool(value) => emit(
            if *value {
                "true"
            } else {
                "false"
            },
            style,
            runs,
        ),
        _ => {
            assert(segments_of(runs@) =~= segments_of(old(runs)@) + literal_segments(
                *value,
                style,
            ));
        },
    }
}

/// Best-effort rendering of a `translate` component.
///
/// The displayed text is the client's translation of the key, which there is no
/// table for here: `fallback` is used when the server supplied one, otherwise
/// the `with` arguments are joined by a space. The slots live in the language
/// file, so a translation that reorders or drops arguments cannot be
/// reproduced, and a key with no arguments renders nothing.
pub fn emit_translation(obj: &Members, style: Style, runs: &mut Vec<Run>)
    requires
        style.wf(),
    ensures
        segments_of(final(runs)@) == segments_of(old(runs)@) + translation_segments(obj@, style),
    decreases obj@,
{
    let ghost before = segments_of(runs@);
    match get(obj, "fallback") {
        Some(Value::String(fallback)) => {
            emit(fallback.as_str(), style, runs);
            return;
        },
        _ => {},
    }
    match get(obj, "with") {
        Some(Value::Array(args)) => {
            proof {
                lemma_member_smaller(obj@, "with"@);
            }
            let mut i: usize = 0;
            assert(before + argument_segments(args@, 0, style) =~= before);
            while i < args.len()
                invariant
                    i <= args@.len(),
                    style.wf(),
                    decreases_to!(obj@ => args@),
                    segments_of(runs@) == before + argument_segments(args@, i as nat, style),
                decreases args.len() - i,
            {
                let ghost so_far = segments_of(runs@);
                if i > 0 {
                    emit(" ", style, runs);
                } else {
                    assert(so_far + Seq::<Segment>::empty() =~= so_far);
                }
                assert(decreases_to!(args@ => args@[i as int]));
                walk(&args[i], style, runs);
                i = i + 1;
                assert(segments_of(runs@) =~= before + argument_segments(args@, i as nat, style));
            }
        },
        _ => {
            assert(segments_of(runs@) =~= before + Seq::<Segment>::empty());
        },
    }
}

// ─── Legacy output ───────────────────────────────────────────────────────────

/// The legacy code `§code`.
pub open spec fn code(code: char) -> Seq<char> {
    seq!['§', code]
}

/// The code, where it is wanted.
pub open spec fn code_if(wanted: bool, c: char) -> Seq<char> {
    if wanted {
        code(c)
    } else {
        Seq::empty()
    }
}

/// The codes of the flags that `style` has and a client in state `on` lacks.
pub open spec fn flag_codes(style: Style, on: Style) -> Seq<char> {
    code_if(style.bold && !on.bold, 'l') + code_if(style.italic && !on.italic, 'o') + code_if(
        style.underlined && !on.underlined,
        'n',
    ) + code_if(style.strikethrough && !on.strikethrough, 'm') + code_if(
        style.obfuscated && !on.obfuscated,
        'k',
    )
}

/// The codes that take a client from `on` to a style that keeps all of `on`.
/// A color code switches the flags off with it, so after one every flag has to
/// be written again.
pub open spec fn style_codes(style: Style, on: Style) -> Seq<char> {
    match style.color {
        Some(index) => if on.color != style.color {
            code(COLORS@[index as int].0) + flag_codes(style, plain_style())
        } else {
            flag_codes(style, on)
        },
        None => flag_codes(style, on),
    }
}

/// Whether a text ends in a `§` that waits for its code, which whatever is
/// written next would then be read as.
pub open spec fn dangling(text: Seq<char>) -> bool
    decreases text.len(),
{
    if text.len() == 0 {
        false
    } else if text[0] == '§' {
        text.len() == 1 || dangling(text.skip(2))
    } else {
        dangling(text.skip(1))
    }
}

/// What is known of a client that has read everything written so far.
#[derive(Debug, Clone, Copy, PartialEq, Eq, Structural)]
pub enum Active {
    /// It is in this style.
    Known(Style),
    /// It has read codes inside a run's text, and what those left behind is not
    /// known.
    Unknown,
    /// So it has, and the last `§` it has read waits for its code.
    Waiting,
}

/// What takes a client to the plain style. Where a `§` waits for its code, the
/// code alone completes the reset.
pub open spec fn reset_codes(active: Active) -> Seq<char> {
    if active is Waiting {
        seq!['r']
    } else {
        code('r')
    }
}

/// The codes to write before a run in `style`. A client that has something on
/// which the style lacks, or whose style is not known, is reset first.
pub open spec fn run_codes(active: Active, style: Style) -> Seq<char> {
    match active {
        Active::Known(on) => if on.covered_by(style) {
            style_codes(style, on)
        } else {
            reset_codes(active) + style_codes(style, plain_style())
        },
        _ => reset_codes(active) + style_codes(style, plain_style()),
    }
}

/// What a run adds to the output: nothing for an empty one, else the codes its
/// style still needs and its text as it is.
pub open spec fn run_output(active: Active, run: Segment) -> Seq<char> {
    if run.text.len() == 0 {
        Seq::empty()
    } else {
        run_codes(active, run.style) + run.text
    }
}

/// What is known of the client once it has read a run.
pub open spec fn active_after(active: Active, run: Segment) -> Active {
    if run.text.len() == 0 {
        active
    } else if dangling(run.text) {
        Active::Waiting
    } else if run.text.contains('§') {
        Active::Unknown
    } else {
        Active::Known(run.style)
    }
}

/// What is known of the client once it has read all of the runs.
pub open spec fn active_state(runs: Seq<Segment>) -> Active
    decreases runs.len(),
{
    if runs.len() == 0 {
        Active::Known(plain_style())
    } else {
        active_after(active_state(runs.drop_last()), runs.last())
    }
}

/// The legacy text of a list of runs.
pub open spec fn legacy_text(runs: Seq<Segment>) -> Seq<char>
    decreases runs.len(),
{
    if runs.len() == 0 {
        Seq::empty()
    } else {
        legacy_text(runs.drop_last()) + run_output(active_state(runs.drop_last()), runs.last())
    }
}

/// Accumulates the legacy text for the runs that [`walk`] resolves, writing the
/// codes each one needs.
///
/// Legacy codes are stateful: a code applies until it is changed, and a style
/// can only be switched off by `§r`, which also clears the color. `active`
/// tracks the state a client would be in after reading everything written so
/// far, so a run writes the codes it still needs, plus one reset when an
/// attribute written before has to be dropped.
pub struct LegacyWriter {
    pub out: String,
    /// What is known of a client that has read `out`.
    pub active: Active,
}

impl LegacyWriter {
    /// Append a text run that carries `style`.
    pub fn push(&mut self, text: &str, style: Style)
        requires
            style.wf(),
        ensures
            final(self).out@ == old(self).out@ + run_output(
                old(self).active,
                Segment { text: text@, style },
            ),
            final(self).active == active_after(old(self).active, Segment { text: text@, style }),
    {
        // Empty runs carry no visible styling; skipping them lets the next run
        // compare against the state that is actually on the wire.
        if text.is_empty() {
            assert(self.out@ =~= old(self).out@ + Seq::<char>::empty());
            return;
        }
        // A client in a state that is not known, or that has to drop something,
        // starts from a state that is stated here.
        let mut on = Style::default();
        match self.active {
            Active::Known(state) => {
                if state.covers(&style) {
                    on = state;
                } else {
                    push_code(&mut self.out, 'r');
                }
            },
            Active::Unknown => push_code(&mut self.out, 'r'),
            // The `§` of the reset stands there already.
            Active::Waiting => self.out.push('r'),
        }
        push_style(&mut self.out, style, on);
        let ghost styled = self.out@;
        assert(styled =~= old(self).out@ + run_codes(old(self).active, style));
        // The text goes out as it came in: a client applies the codes inside it
        // over the style just written, exactly as it applies them over the
        // component's own style.
        self.out.append(text);
        self.active = if leaves_waiting(text) {
            Active::Waiting
        } else if contains_char(text, '§') {
            Active::Unknown
        } else {
            Active::Known(style)
        };
        assert(self.out@ =~= old(self).out@ + run_output(
            old(self).active,
            Segment { text: text@, style },
        ));
    }
}

/// Whether a text ends in a `§` that waits for its code.
fn leaves_waiting(text: &str) -> (res: bool)
    ensures
        res == dangling(text@),
{
    let chars = chars_of(text);
    let mut i: usize = 0;
    assert(chars@.skip(0) =~= chars@);
    while i < chars.len()
        invariant
            i <= chars@.len(),
            chars@ == text@,
            dangling(chars@.skip(i as int)) == dangling(text@),
        decreases chars.len() - i,
    {
        let ghost rest = chars@.skip(i as int);
        assert(rest[0] == chars@[i as int]);
        if chars[i] != '§' {
            assert(rest.skip(1) =~= chars@.skip(i + 1));
            i = i + 1;
        } else if chars.len() - i == 1 {
            return true;
        } else {
            assert(rest.skip(2) =~= chars@.skip(i + 2));
            i = i + 2;
        }
    }
    false
}

/// Append the legacy code `§code` to `out`.
pub fn push_code(out: &mut String, code: char)
    ensures
        final(out)@ == old(out)@ + self::code(code),
{
    out.push('§');
    out.push(code);
    assert(out@ =~= old(out)@ + self::code(code));
}

/// Append the codes that take a client from `on` to `style`, which keeps all
/// that is on.
fn push_style(out: &mut String, style: Style, on: Style)
    requires
        style.wf(),
    ensures
        final(out)@ == old(out)@ + style_codes(style, on),
{
    if let Some(index) = style.color {
        if on.color != style.color {
            push_code(out, COLORS[index].0);
            // A color code clears the flags as well, so the color is all that
            // survives it and the flags are written again.
            push_flags(out, style, Style::default());
            assert(out@ =~= old(out)@ + style_codes(style, on));
            return;
        }
    }
    push_flags(out, style, on);
}

/// Append the codes of the flags that `style` has and `on` lacks.
fn push_flags(out: &mut String, style: Style, on: Style)
    ensures
        final(out)@ == old(out)@ + flag_codes(style, on),
{
    push_code_if(out, style.bold && !on.bold, 'l');
    push_code_if(out, style.italic && !on.italic, 'o');
    push_code_if(out, style.underlined && !on.underlined, 'n');
    push_code_if(out, style.strikethrough && !on.strikethrough, 'm');
    push_code_if(out, style.obfuscated && !on.obfuscated, 'k');
    let ghost before = old(out)@;
    let ghost bold = code_if(style.bold && !on.bold, 'l');
    let ghost italic = code_if(style.italic && !on.italic, 'o');
    let ghost underlined = code_if(style.underlined && !on.underlined, 'n');
    let ghost strikethrough = code_if(style.strikethrough && !on.strikethrough, 'm');
    let ghost obfuscated = code_if(style.obfuscated && !on.obfuscated, 'k');
    assert(before + bold + italic + underlined + strikethrough + obfuscated =~= before + (bold
        + italic + underlined + strikethrough + obfuscated));
}

/// Append the legacy code `§code` where it is wanted.
fn push_code_if(out: &mut String, wanted: bool, code: char)
    ensures
        final(out)@ == old(out)@ + code_if(wanted, code),
{
    if wanted {
        push_code(out, code);
    } else {
        assert(out@ =~= old(out)@ + Seq::<char>::empty());
    }
}

/// The text without its formatting codes: every `§` goes together with the
/// character after it, where there is one.
pub open spec fn without_codes(text: Seq<char>) -> Seq<char>
    decreases text.len(),
{
    if text.len() == 0 {
        Seq::empty()
    } else if text[0] == '§' {
        if text.len() > 1 {
            without_codes(text.skip(2))
        } else {
            Seq::empty()
        }
    } else {
        seq![text[0]] + without_codes(text.skip(1))
    }
}

/// Text without a code in it is left as it is.
proof fn lemma_without_codes_id(text: Seq<char>)
    requires
        !text.contains('§'),
    ensures
        without_codes(text) == text,
    decreases text.len(),
{
    if text.len() > 0 {
        assert(text[0] != '§');
        let rest = text.skip(1);
        assert forall|i: int| 0 <= i < rest.len() implies rest[i] != '§' by {
            assert(rest[i] == text[i + 1]);
        }
        lemma_without_codes_id(rest);
        assert(seq![text[0]] + rest =~= text);
    } else {
        assert(text =~= Seq::<char>::empty());
    }
}

/// Append `text` to `out` the way a client shows it with the styling dropped.
///
/// A `§` in component text starts a formatting code, so the character after it
/// is formatting too and a client never draws either, whether or not the code
/// is one it knows (`§x`, `§z` and even `§ ` are swallowed, and a trailing `§`
/// goes on its own): "50§ off" shows as "50off".
pub fn push_plain_text(out: &mut String, text: &str)
    ensures
        final(out)@ == old(out)@ + without_codes(text@),
{
    // Text carrying no codes is the common case.
    if !contains_char(text, '§') {
        proof {
            lemma_without_codes_id(text@);
        }
        out.append(text);
        return;
    }
    let chars = chars_of(text);
    let mut i: usize = 0;
    assert(chars@.skip(0) =~= chars@);
    while i < chars.len()
        invariant
            i <= chars@.len(),
            chars@ == text@,
            out@ + without_codes(chars@.skip(i as int)) == old(out)@ + without_codes(text@),
        decreases chars.len() - i,
    {
        let ghost rest = chars@.skip(i as int);
        assert(rest[0] == chars@[i as int]);
        if chars[i] == '§' {
            // Skips the code's second character, or nothing at all.
            if chars.len() - i > 1 {
                assert(rest.skip(2) =~= chars@.skip(i + 2));
                i = i + 2;
            } else {
                assert(chars@.skip(i + 1) =~= Seq::<char>::empty());
                i = i + 1;
            }
        } else {
            let ghost before = out@;
            out.push(chars[i]);
            assert(rest.skip(1) =~= chars@.skip(i + 1));
            assert(before + (seq![chars@[i as int]] + without_codes(chars@.skip(i + 1))) =~= out@
                + without_codes(chars@.skip(i + 1)));
            i = i + 1;
        }
    }
    assert(chars@.skip(i as int) =~= Seq::<char>::empty());
    assert(out@ + Seq::<char>::empty() =~= out@);
}

// ─── Conversion ──────────────────────────────────────────────────────────────

/// The plain text of a list of runs: their texts, without codes.
pub open spec fn plain_text(runs: Seq<Segment>) -> Seq<char>
    decreases runs.len(),
{
    if runs.len() == 0 {
        Seq::empty()
    } else {
        plain_text(runs.drop_last()) + without_codes(runs.last().text)
    }
}

/// Convert a Chat component into legacy `§`-coded text.
///
/// Never fails: shapes and fields the legacy format cannot express are
/// skipped, so this is safe to call on a raw server response.
pub fn to_legacy_text(component: &Value) -> (res: String)
    ensures
        res@ == legacy_text(segments(*component, plain_style())),
{
    let mut runs: Vec<Run> = Vec::new();
    walk(component, Style::default(), &mut runs);
    let ghost all = segments(*component, plain_style());
    assert(segments_of(runs@) =~= all);
    proof {
        lemma_segments_wf(*component, plain_style());
    }
    let mut writer = LegacyWriter { out: String::new(), active: Active::Known(Style::default()) };
    let mut i: usize = 0;
    while i < runs.len()
        invariant
            i <= runs@.len(),
            segments_of(runs@) == all,
            all_wf(all),
            writer.out@ == legacy_text(all.take(i as int)),
            writer.active == active_state(all.take(i as int)),
        decreases runs.len() - i,
    {
        let ghost next = all.take(i + 1);
        assert(next.drop_last() =~= all.take(i as int));
        assert(all[i as int] == runs@[i as int]@);
        writer.push(runs[i].text.as_str(), runs[i].style);
        i = i + 1;
    }
    assert(all.take(i as int) =~= all);
    writer.out
}

/// Convert a Chat component into plain text: the text [`to_legacy_text`]
/// renders, with the styling left out, the codes embedded in the text included,
/// which a client reads as formatting and therefore never shows.
pub fn to_plain_text(component: &Value) -> (res: String)
    ensures
        res@ == plain_text(segments(*component, plain_style())),
{
    let mut runs: Vec<Run> = Vec::new();
    walk(component, Style::default(), &mut runs);
    let ghost all = segments(*component, plain_style());
    assert(segments_of(runs@) =~= all);
    let mut out = String::new();
    let mut i: usize = 0;
    while i < runs.len()
        invariant
            i <= runs@.len(),
            segments_of(runs@) == all,
            out@ == plain_text(all.take(i as int)),
        decreases runs.len() - i,
    {
        let ghost next = all.take(i + 1);
        assert(next.drop_last() =~= all.take(i as int));
        assert(all[i as int] == runs@[i as int]@);
        push_plain_text(&mut out, runs[i].text.as_str());
        i = i + 1;
    }
    assert(all.take(i as int) =~= all);
    out
}

} // verus!
