//! What a client makes of legacy text: a model of its reader, and the laws of
//! the conversion that can be stated against it.

use crate::chat::{
    active_after, active_state, all_wf, code, code_if, dangling, flag_codes, legacy_text,
    lemma_segments_wf, plain_text, reset_codes, run_codes, run_output, segments, style_codes,
    without_codes, Active, Segment,
};
use crate::json::{member, Members, Value};
use crate::style::{plain_style, resolved, Style, COLORS};
use crate::text::digit_value;
use vstd::prelude::*;

verus! {

/// A character a client draws, and the style it draws it in.
pub struct Glyph {
    pub character: char,
    pub style: Style,
}

/// The state of a client that was in `on`, once it has read `§c`. A color
/// code sets the color and switches the flags off, `r` resets, `l`, `o`, `n`,
/// `m` and `k` switch a flag on; codes count in either case, and others change
/// nothing.
pub open spec fn applied(on: Style, c: char) -> Style {
    match digit_value(c, 16) {
        Some(index) => Style { color: Some(index as usize), ..plain_style() },
        None => if c == 'l' || c == 'L' {
            Style { bold: true, ..on }
        } else if c == 'o' || c == 'O' {
            Style { italic: true, ..on }
        } else if c == 'n' || c == 'N' {
            Style { underlined: true, ..on }
        } else if c == 'm' || c == 'M' {
            Style { strikethrough: true, ..on }
        } else if c == 'k' || c == 'K' {
            Style { obfuscated: true, ..on }
        } else if c == 'r' || c == 'R' {
            plain_style()
        } else {
            on
        },
    }
}

/// A single glyph, as a list of its own.
pub open spec fn glyph(character: char, style: Style) -> Seq<Glyph> {
    seq![Glyph { character, style }]
}

/// What a client in state `on` draws for a text.
pub open spec fn drawn(on: Style, text: Seq<char>) -> Seq<Glyph>
    decreases text.len(),
{
    if text.len() == 0 {
        Seq::empty()
    } else if text[0] == '§' {
        if text.len() > 1 {
            drawn(applied(on, text[1]), text.skip(2))
        } else {
            Seq::empty()
        }
    } else {
        glyph(text[0], on) + drawn(on, text.skip(1))
    }
}

/// The state a client in state `on` is in once it has read a text.
pub open spec fn state_after(on: Style, text: Seq<char>) -> Style
    decreases text.len(),
{
    if text.len() == 0 {
        on
    } else if text[0] == '§' {
        if text.len() > 1 {
            state_after(applied(on, text[1]), text.skip(2))
        } else {
            on
        }
    } else {
        state_after(on, text.skip(1))
    }
}

/// What the runs look like, each read on its own in the style it carries.
pub open spec fn shown(runs: Seq<Segment>) -> Seq<Glyph>
    decreases runs.len(),
{
    if runs.len() == 0 {
        Seq::empty()
    } else {
        shown(runs.drop_last()) + drawn(runs.last().style, runs.last().text)
    }
}

/// Whether this much is true of a client that has read a text from state `on`.
pub open spec fn holds(active: Active, on: Style, written: Seq<char>) -> bool {
    match active {
        Active::Known(style) => !dangling(written) && state_after(on, written) == style,
        Active::Unknown => !dangling(written),
        Active::Waiting => dangling(written),
    }
}

/// Text that leaves no `§` waiting is read first, and what follows it is read
/// from the state it left.
proof fn lemma_concat(on: Style, a: Seq<char>, b: Seq<char>)
    requires
        !dangling(a),
    ensures
        drawn(on, a + b) == drawn(on, a) + drawn(state_after(on, a), b),
        state_after(on, a + b) == state_after(state_after(on, a), b),
        dangling(a + b) == dangling(b),
        without_codes(a + b) == without_codes(a) + without_codes(b),
    decreases a.len(),
{
    let s = a + b;
    if a.len() == 0 {
        assert(s =~= b);
        assert(Seq::<Glyph>::empty() + drawn(on, b) =~= drawn(on, b));
        assert(Seq::<char>::empty() + without_codes(b) =~= without_codes(b));
    } else if a[0] == '§' {
        lemma_concat(applied(on, a[1]), a.skip(2), b);
        assert(s.skip(2) =~= a.skip(2) + b);
        assert(s[0] == a[0] && s[1] == a[1]);
    } else {
        lemma_concat(on, a.skip(1), b);
        assert(s.skip(1) =~= a.skip(1) + b);
        assert(s[0] == a[0]);
        assert(state_after(on, a) == state_after(on, a.skip(1)));
        let g = glyph(a[0], on);
        assert(drawn(on, s) == g + drawn(on, s.skip(1)));
        assert(drawn(on, a) == g + drawn(on, a.skip(1)));
        assert(drawn(on, s) =~= drawn(on, a) + drawn(state_after(on, a), b));
        let c = seq![a[0]];
        assert(c + (without_codes(a.skip(1)) + without_codes(b)) =~= c + without_codes(a.skip(1))
            + without_codes(b));
    }
}

/// Text without codes leaves the state as it is.
proof fn lemma_literal(on: Style, text: Seq<char>)
    requires
        !text.contains('§'),
    ensures
        state_after(on, text) == on,
        !dangling(text),
    decreases text.len(),
{
    if text.len() > 0 {
        assert(text[0] != '§');
        let rest = text.skip(1);
        assert forall|i: int| 0 <= i < rest.len() implies rest[i] != '§' by {
            assert(rest[i] == text[i + 1]);
        }
        lemma_literal(on, rest);
    }
}

/// Whether a text is codes only, and takes a client from one state to another.
spec fn leads(text: Seq<char>, from: Style, to: Style) -> bool {
    &&& drawn(from, text) == Seq::<Glyph>::empty()
    &&& state_after(from, text) == to
    &&& !dangling(text)
    &&& without_codes(text) == Seq::<char>::empty()
}

/// A single code applies its change and draws nothing.
proof fn lemma_code(on: Style, c: char)
    ensures
        leads(code(c), on, applied(on, c)),
{
    let s = code(c);
    let empty = Seq::<char>::empty();
    assert(s.skip(2) =~= empty);
    assert(!dangling(empty) && without_codes(empty) == empty);
    assert(drawn(applied(on, c), empty) == Seq::<Glyph>::empty());
    assert(state_after(applied(on, c), empty) == applied(on, c));
    assert(s[0] == '§' && s[1] == c);
}

/// A code that is written only where wanted.
proof fn lemma_code_if(on: Style, wanted: bool, c: char)
    ensures
        leads(
            code_if(wanted, c),
            on,
            if wanted {
                applied(on, c)
            } else {
                on
            },
        ),
{
    lemma_code(on, c);
}

/// Codes written one after the other lead on from one another.
proof fn lemma_leads(a: Seq<char>, b: Seq<char>, from: Style, middle: Style, to: Style)
    requires
        leads(a, from, middle),
        leads(b, middle, to),
    ensures
        leads(a + b, from, to),
{
    lemma_concat(from, a, b);
    assert(Seq::<Glyph>::empty() + Seq::<Glyph>::empty() =~= Seq::<Glyph>::empty());
    assert(Seq::<char>::empty() + Seq::<char>::empty() =~= Seq::<char>::empty());
}

/// The flag codes switch on what the style has, and nothing else.
proof fn lemma_flag_codes(style: Style, on: Style)
    requires
        on.covered_by(style),
    ensures
        leads(flag_codes(style, on), on, Style { color: on.color, ..style }),
{
    let s1 = Style { bold: style.bold, ..on };
    let s2 = Style { italic: style.italic, ..s1 };
    let s3 = Style { underlined: style.underlined, ..s2 };
    let s4 = Style { strikethrough: style.strikethrough, ..s3 };
    let s5 = Style { obfuscated: style.obfuscated, ..s4 };
    let c1 = code_if(style.bold && !on.bold, 'l');
    let c2 = code_if(style.italic && !on.italic, 'o');
    let c3 = code_if(style.underlined && !on.underlined, 'n');
    let c4 = code_if(style.strikethrough && !on.strikethrough, 'm');
    let c5 = code_if(style.obfuscated && !on.obfuscated, 'k');
    lemma_code_if(on, style.bold && !on.bold, 'l');
    lemma_code_if(s1, style.italic && !on.italic, 'o');
    lemma_code_if(s2, style.underlined && !on.underlined, 'n');
    lemma_code_if(s3, style.strikethrough && !on.strikethrough, 'm');
    lemma_code_if(s4, style.obfuscated && !on.obfuscated, 'k');
    lemma_leads(c1, c2, on, s1, s2);
    lemma_leads(c1 + c2, c3, on, s2, s3);
    lemma_leads(c1 + c2 + c3, c4, on, s3, s4);
    lemma_leads(c1 + c2 + c3 + c4, c5, on, s4, s5);
    assert(s5 == Style { color: on.color, ..style });
}

/// The style codes take a client to the style from any state it keeps all of.
proof fn lemma_style_codes(style: Style, on: Style)
    requires
        style.wf(),
        on.covered_by(style),
    ensures
        leads(style_codes(style, on), on, style),
{
    match style.color {
        Some(index) => {
            if on.color != style.color {
                let c = COLORS@[index as int].0;
                assert(digit_value(c, 16) == Some(index as nat));
                let colored = Style { color: style.color, ..plain_style() };
                lemma_code(on, c);
                assert(applied(on, c) == colored);
                lemma_flag_codes(style, colored);
                assert(flag_codes(style, colored) == flag_codes(style, plain_style()));
                lemma_leads(code(c), flag_codes(style, plain_style()), on, colored, style);
            } else {
                lemma_flag_codes(style, on);
            }
        },
        None => {
            lemma_flag_codes(style, on);
        },
    }
}

/// Text that leaves a `§` waiting is read like the text before that `§`.
proof fn lemma_waiting(on: Style, text: Seq<char>)
    requires
        dangling(text),
    ensures
        text.len() > 0,
        text.last() == '§',
        !dangling(text.drop_last()),
        drawn(on, text) == drawn(on, text.drop_last()),
        state_after(on, text) == state_after(on, text.drop_last()),
        without_codes(text) == without_codes(text.drop_last()),
    decreases text.len(),
{
    let less = text.drop_last();
    if text[0] == '§' {
        if text.len() == 1 {
            assert(less =~= Seq::<char>::empty());
        } else {
            lemma_waiting(applied(on, text[1]), text.skip(2));
            assert(less.skip(2) =~= text.skip(2).drop_last());
            assert(less[0] == text[0] && less[1] == text[1]);
        }
    } else {
        lemma_waiting(on, text.skip(1));
        assert(less.skip(1) =~= text.skip(1).drop_last());
        assert(less[0] == text[0]);
    }
}

/// **The codes written before a run take every client they may meet to the run's
/// style**, and draw nothing.
pub proof fn law_codes_reach_the_style(
    active: Active,
    on: Style,
    written: Seq<char>,
    style: Style,
)
    requires
        style.wf(),
        holds(active, on, written),
    ensures
        drawn(on, written + run_codes(active, style)) == drawn(on, written),
        state_after(on, written + run_codes(active, style)) == style,
        !dangling(written + run_codes(active, style)),
        without_codes(written + run_codes(active, style)) == without_codes(written),
{
    let codes = style_codes(style, plain_style());
    let reset = code('r') + codes;
    let after = written + run_codes(active, style);
    match active {
        Active::Known(state) if state.covered_by(style) => {
            lemma_style_codes(style, state);
            lemma_follow(on, written, style_codes(style, state), style);
        },
        Active::Waiting => {
            let read = written.drop_last();
            lemma_waiting(on, written);
            lemma_reset(state_after(on, read), style);
            lemma_follow(on, read, reset, style);
            assert(after =~= read + reset);
        },
        _ => {
            lemma_reset(state_after(on, written), style);
            lemma_follow(on, written, reset, style);
        },
    }
}

/// A reset and the codes of a style lead to it from anywhere.
proof fn lemma_reset(on: Style, style: Style)
    requires
        style.wf(),
    ensures
        leads(code('r') + style_codes(style, plain_style()), on, style),
{
    lemma_code(on, 'r');
    lemma_style_codes(style, plain_style());
    lemma_leads(code('r'), style_codes(style, plain_style()), on, plain_style(), style);
}

/// Codes that follow a text change the state it left, and draw nothing.
proof fn lemma_follow(on: Style, written: Seq<char>, codes: Seq<char>, style: Style)
    requires
        !dangling(written),
        leads(codes, state_after(on, written), style),
    ensures
        drawn(on, written + codes) == drawn(on, written),
        state_after(on, written + codes) == style,
        !dangling(written + codes),
        without_codes(written + codes) == without_codes(written),
{
    lemma_concat(on, written, codes);
    assert(drawn(on, written) + Seq::<Glyph>::empty() =~= drawn(on, written));
    assert(without_codes(written) + Seq::<char>::empty() =~= without_codes(written));
}

/// A run is drawn as if it were read on its own in its own style, and what is
/// then known of the client holds.
proof fn lemma_run(active: Active, on: Style, written: Seq<char>, run: Segment)
    requires
        run.style.wf(),
        holds(active, on, written),
    ensures
        drawn(on, written + run_output(active, run)) == drawn(on, written) + drawn(
            run.style,
            run.text,
        ),
        without_codes(written + run_output(active, run)) == without_codes(written)
            + without_codes(run.text),
        holds(active_after(active, run), on, written + run_output(active, run)),
{
    let output = run_output(active, run);
    if run.text.len() == 0 {
        assert(written + output =~= written);
        assert(drawn(on, written) + drawn(run.style, run.text) =~= drawn(on, written));
        assert(without_codes(written) + without_codes(run.text) =~= without_codes(written));
    } else {
        let styled = written + run_codes(active, run.style);
        law_codes_reach_the_style(active, on, written, run.style);
        lemma_concat(on, styled, run.text);
        assert(written + output =~= styled + run.text);
        if !run.text.contains('§') {
            lemma_literal(run.style, run.text);
        }
    }
}

/// What the writer knows holds of a client that has read its output, and the
/// output draws what the runs are.
proof fn lemma_runs(runs: Seq<Segment>)
    requires
        all_wf(runs),
    ensures
        drawn(plain_style(), legacy_text(runs)) == shown(runs),
        without_codes(legacy_text(runs)) == plain_text(runs),
        holds(active_state(runs), plain_style(), legacy_text(runs)),
    decreases runs.len(),
{
    if runs.len() > 0 {
        let before = runs.drop_last();
        assert forall|i: int| 0 <= i < before.len() implies (#[trigger] before[i]).style.wf() by {
            assert(before[i] == runs[i]);
        }
        assert(runs.last() == runs[runs.len() - 1]);
        lemma_runs(before);
        lemma_run(active_state(before), plain_style(), legacy_text(before), runs.last());
    }
}

/// **A client that reads the legacy text of a component draws exactly the
/// component's runs**, each as if it were read alone in the style resolved for
/// it: styles reach the client, none leaks into the next run, and the codes
/// inside a run's text apply over that run's style.
pub proof fn law_legacy_text_draws_the_component(component: Value)
    ensures
        drawn(plain_style(), legacy_text(segments(component, plain_style()))) == shown(
            segments(component, plain_style()),
        ),
{
    lemma_segments_wf(component, plain_style());
    lemma_runs(segments(component, plain_style()));
}

/// **The plain text of a component is its legacy text with the codes taken
/// out.**
pub proof fn law_plain_text_is_legacy_text_without_codes(component: Value)
    ensures
        without_codes(legacy_text(segments(component, plain_style()))) == plain_text(
            segments(component, plain_style()),
        ),
{
    lemma_segments_wf(component, plain_style());
    lemma_runs(segments(component, plain_style()));
}

/// **What the writer takes for known of a client is true of one that has read its
/// output.**
pub proof fn law_tracked_state_holds(component: Value)
    ensures
        holds(
            active_state(segments(component, plain_style())),
            plain_style(),
            legacy_text(segments(component, plain_style())),
        ),
{
    lemma_segments_wf(component, plain_style());
    lemma_runs(segments(component, plain_style()));
}

/// The characters of what is drawn.
pub open spec fn characters(glyphs: Seq<Glyph>) -> Seq<char> {
    Seq::new(glyphs.len(), |i: int| glyphs[i].character)
}

/// The characters of a glyph and those that follow it.
proof fn lemma_characters(character: char, style: Style, rest: Seq<Glyph>)
    ensures
        characters(glyph(character, style) + rest) == seq![character] + characters(rest),
{
    let all = glyph(character, style) + rest;
    let expected = seq![character] + characters(rest);
    assert(all[0] == Glyph { character, style });
    assert forall|i: int| 0 <= i < all.len() implies characters(all)[i] == expected[i] by {
        if i > 0 {
            assert(all[i] == rest[i - 1]);
        }
    }
    assert(characters(all) =~= expected);
}

/// **What a client draws, without the styles, is the text without its codes.**
pub proof fn law_drawn_characters(on: Style, text: Seq<char>)
    ensures
        characters(drawn(on, text)) == without_codes(text),
    decreases text.len(),
{
    if text.len() == 0 {
        assert(characters(drawn(on, text)) =~= Seq::<char>::empty());
    } else if text[0] == '§' {
        if text.len() > 1 {
            law_drawn_characters(applied(on, text[1]), text.skip(2));
        } else {
            assert(characters(drawn(on, text)) =~= Seq::<char>::empty());
        }
    } else {
        law_drawn_characters(on, text.skip(1));
        let rest = drawn(on, text.skip(1));
        assert(drawn(on, text) == glyph(text[0], on) + rest);
        lemma_characters(text[0], on, rest);
    }
}

/// **A run costs no codes exactly when the client is known to be in its style
/// already.**
pub proof fn law_only_an_unchanged_style_costs_no_codes(active: Active, style: Style)
    requires
        style.wf(),
    ensures
        run_codes(active, style).len() == 0 <==> active == Active::Known(style),
{
}

/// **A reset is written exactly when something has to be dropped**, or when the
/// client's style is not known.
pub proof fn law_only_what_is_dropped_costs_a_reset(active: Active, style: Style)
    requires
        style.wf(),
    ensures
        reset_codes(active).is_prefix_of(run_codes(active, style)) <==> (match active {
            Active::Known(on) => !on.covered_by(style),
            _ => true,
        }),
{
    let codes = run_codes(active, style);
    if let Active::Known(on) = active {
        if on.covered_by(style) {
            assert(codes.len() > 1 ==> codes[1] != 'r');
            assert(reset_codes(active)[1] == 'r');
        }
    }
}

/// How many flags `style` has and a client in state `on` lacks.
spec fn missing(style: Style, on: Style) -> nat {
    count(style.bold && !on.bold) + count(style.italic && !on.italic) + count(
        style.underlined && !on.underlined,
    ) + count(style.strikethrough && !on.strikethrough) + count(style.obfuscated && !on.obfuscated)
}

/// One if so, else zero.
spec fn count(so: bool) -> nat {
    if so {
        1
    } else {
        0
    }
}

/// How many codes it takes at least to get a client from `on` to `style`: those
/// of the missing flags or, where the color has to change or a flag to go, one
/// that clears all flags and those of every flag.
spec fn least_codes(on: Style, style: Style) -> nat {
    if on.color == style.color && on.covered_by(style) {
        missing(style, on)
    } else {
        1 + missing(style, plain_style())
    }
}

/// No code brings a client nearer than by one.
proof fn lemma_one_code(on: Style, style: Style, c: char)
    ensures
        least_codes(on, style) <= 1 + least_codes(applied(on, c), style),
{
    let after = applied(on, c);
    if after == plain_style() || (after.color is Some && after == Style {
        color: after.color,
        ..plain_style()
    }) {
        assert(missing(style, after) == missing(style, plain_style()));
        assert(least_codes(on, style) <= 1 + missing(style, plain_style())) by {
            lemma_missing(style, on);
        }
    } else {
        assert(after.color == on.color);
        lemma_missing(style, on);
        lemma_missing(style, after);
    }
}

/// A client that has something on lacks no more than one that has nothing on.
proof fn lemma_missing(style: Style, on: Style)
    ensures
        missing(style, on) <= missing(style, plain_style()),
{
}

/// The flag codes are as many as the flags that are missing.
proof fn lemma_flag_codes_len(style: Style, on: Style)
    ensures
        flag_codes(style, on).len() == 2 * missing(style, on),
{
    lemma_code_if_len(style.bold && !on.bold, 'l');
    lemma_code_if_len(style.italic && !on.italic, 'o');
    lemma_code_if_len(style.underlined && !on.underlined, 'n');
    lemma_code_if_len(style.strikethrough && !on.strikethrough, 'm');
    lemma_code_if_len(style.obfuscated && !on.obfuscated, 'k');
}

/// A code has two characters, where it is wanted.
proof fn lemma_code_if_len(wanted: bool, c: char)
    ensures
        code_if(wanted, c).len() == 2 * count(wanted),
{
}

/// Codes that lead to a style are no fewer than it takes.
proof fn lemma_least_codes(codes: Seq<char>, on: Style, style: Style)
    requires
        leads(codes, on, style),
    ensures
        codes.len() >= 2 * least_codes(on, style),
    decreases codes.len(),
{
    if codes.len() > 0 {
        if codes[0] != '§' {
            assert(drawn(on, codes)[0] == glyph(codes[0], on)[0]);
        }
        lemma_one_code(on, style, codes[1]);
        lemma_least_codes(codes.skip(2), applied(on, codes[1]), style);
    }
}

/// **Unless something has to be dropped, no code is superfluous**: whatever text
/// of codes takes the client from its state to the style of the run is at least
/// as long as the one that is written.
pub proof fn law_no_code_is_superfluous(on: Style, style: Style, codes: Seq<char>)
    requires
        style.wf(),
        on.covered_by(style),
        drawn(on, codes) == Seq::<Glyph>::empty(),
        !dangling(codes),
        state_after(on, codes) == style,
    ensures
        run_codes(Active::Known(on), style).len() <= codes.len(),
{
    law_drawn_characters(on, codes);
    assert(without_codes(codes) =~= Seq::<char>::empty());
    lemma_least_codes(codes, on, style);
    lemma_flag_codes_len(style, on);
    lemma_flag_codes_len(style, plain_style());
}

/// **A client draws each character in the style it is in**, and takes a `§` and the
/// character behind it for a code: that draws nothing and changes the style for
/// all that follows.
pub proof fn law_client_reads_from_the_left(on: Style, c: char, text: Seq<char>)
    ensures
        drawn(on, Seq::<char>::empty()).len() == 0,
        drawn(on, seq!['§']).len() == 0,
        c != '§' ==> drawn(on, seq![c] + text) == seq![Glyph { character: c, style: on }] + drawn(
            on,
            text,
        ),
        drawn(on, seq!['§', c] + text) == drawn(applied(on, c), text),
        state_after(on, Seq::<char>::empty()) == on,
        c != '§' ==> state_after(on, seq![c] + text) == state_after(on, text),
        state_after(on, seq!['§', c] + text) == state_after(applied(on, c), text),
{
    assert((seq![c] + text).skip(1) =~= text);
    assert((seq!['§', c] + text).skip(2) =~= text);
}

/// **What each code does to a client**: a hexadecimal digit sets its color and
/// switches the flags off, `l`, `o`, `n`, `m` and `k` switch one flag on each, `r`
/// clears all, and any other character does nothing.
pub proof fn law_codes_do_what_they_stand_for(on: Style, c: char)
    ensures
        '0' <= c <= '9' ==> applied(on, c) == (Style {
            color: Some((c as int - '0' as int) as usize),
            ..plain_style()
        }),
        'a' <= c <= 'f' ==> applied(on, c) == (Style {
            color: Some((c as int - 'a' as int + 10) as usize),
            ..plain_style()
        }),
        'A' <= c <= 'F' ==> applied(on, c) == (Style {
            color: Some((c as int - 'A' as int + 10) as usize),
            ..plain_style()
        }),
        c == 'l' || c == 'L' ==> applied(on, c) == (Style { bold: true, ..on }),
        c == 'o' || c == 'O' ==> applied(on, c) == (Style { italic: true, ..on }),
        c == 'n' || c == 'N' ==> applied(on, c) == (Style { underlined: true, ..on }),
        c == 'm' || c == 'M' ==> applied(on, c) == (Style { strikethrough: true, ..on }),
        c == 'k' || c == 'K' ==> applied(on, c) == (Style { obfuscated: true, ..on }),
        c == 'r' || c == 'R' ==> applied(on, c) == plain_style(),
        !('0' <= c <= '9' || 'a' <= c <= 'f' || 'A' <= c <= 'F' || c == 'l' || c == 'L' || c == 'o'
            || c == 'O' || c == 'n' || c == 'N' || c == 'm' || c == 'M' || c == 'k' || c == 'K' || c
            == 'r' || c == 'R') ==> applied(on, c) == on,
{
}

/// **Runs are shown one after the other, each in its own style.**
pub proof fn law_runs_are_shown_in_order(before: Seq<Segment>, after: Seq<Segment>)
    ensures
        shown(before + after) == shown(before) + shown(after),
        after.len() == 0 ==> shown(after).len() == 0,
        after.len() == 1 ==> shown(after) == drawn(after[0].style, after[0].text),
    decreases after.len(),
{
    if after.len() == 0 {
        assert(before + after =~= before);
        assert(shown(before) + shown(after) =~= shown(before));
    } else {
        let most = after.drop_last();
        law_runs_are_shown_in_order(before, most);
        assert((before + after).drop_last() =~= before + most);
        assert((before + after).last() == after.last());
        let last = drawn(after.last().style, after.last().text);
        assert(shown(before) + shown(most) + last =~= shown(before) + (shown(most) + last));
        if after.len() == 1 {
            assert(most =~= Seq::<Segment>::empty());
            assert(shown(most) + last =~= last);
        }
    }
}

/// **A text object is drawn with exactly the flags that it sets**: of an object
/// without color or children, whose text holds no codes, a client draws the text
/// with each flag on whose own key holds `true`, and every other off.
pub proof fn law_flags_are_drawn_as_they_are_set(obj: Members, text: String)
    requires
        member(obj@, "text"@) == Some(Value::String(text)),
        !text@.contains('§'),
        !(member(obj@, "extra"@) matches Some(Value::Array(_))),
        !(member(obj@, "color"@) matches Some(Value::String(_))),
    ensures
        ({
            let glyphs = drawn(
                plain_style(),
                legacy_text(segments(Value::Object(obj), plain_style())),
            );
            &&& glyphs.len() == text@.len()
            &&& forall|i: int|
                0 <= i < glyphs.len() ==> (#[trigger] glyphs[i]) == (Glyph {
                    character: text@[i],
                    style: Style {
                        color: None,
                        bold: member(obj@, "bold"@) == Some(Value::Bool(true)),
                        italic: member(obj@, "italic"@) == Some(Value::Bool(true)),
                        underlined: member(obj@, "underlined"@) == Some(Value::Bool(true)),
                        strikethrough: member(obj@, "strikethrough"@) == Some(Value::Bool(true)),
                        obfuscated: member(obj@, "obfuscated"@) == Some(Value::Bool(true)),
                    },
                })
        }),
{
    let component = Value::Object(obj);
    let style = resolved(plain_style(), obj@);
    let runs = segments(component, plain_style());
    law_legacy_text_draws_the_component(component);
    assert(runs =~= seq![Segment { text: text@, style }]);
    law_runs_are_shown_in_order(Seq::empty(), runs);
    lemma_literal_glyphs(style, text@);
}

/// A glyph alone.
proof fn lemma_glyph(character: char, style: Style)
    ensures
        glyph(character, style).len() == 1,
        glyph(character, style)[0] == (Glyph { character, style }),
{
    let one = glyph(character, style);
    assert(one == Seq::<Glyph>::empty().push(Glyph { character, style }));
}

/// Text without codes is drawn character by character.
proof fn lemma_literal_glyphs(on: Style, text: Seq<char>)
    requires
        !text.contains('§'),
    ensures
        drawn(on, text).len() == text.len(),
        forall|i: int|
            0 <= i < text.len() ==> (#[trigger] drawn(on, text)[i]) == (Glyph {
                character: text[i],
                style: on,
            }),
    decreases text.len(),
{
    if text.len() > 0 {
        let rest = text.skip(1);
        assert(text.contains(text[0]));
        assert forall|i: int| 0 <= i < rest.len() implies rest[i] != '§' by {
            assert(rest[i] == text[i + 1]);
        }
        lemma_literal_glyphs(on, rest);
        let all = drawn(on, text);
        let first = glyph(text[0], on);
        lemma_glyph(text[0], on);
        assert(all == first + drawn(on, rest));
        assert forall|i: int| 0 <= i < text.len() implies (#[trigger] all[i]) == (Glyph {
            character: text[i],
            style: on,
        }) by {
            if i > 0 {
                assert(all[i] == drawn(on, rest)[i - 1]);
                assert(rest[i - 1] == text[i]);
            }
        }
    }
}

} // verus!
