//! What holds of numerals and of trimming.

use crate::ip_laws::{dec_worth, hex_worth, hexit, lemma_dec_worth};
use crate::text::{
    decimal, digit_char, digit_value, hexadecimal, is_white_space, lemma_numeral, trimmed,
};
use vstd::prelude::*;

verus! {

/// **A decimal numeral is the shortest text of digits that is worth the number.**
pub proof fn law_decimal_numeral(n: nat)
    ensures
        decimal(n).len() > 0,
        forall|i: int| 0 <= i < decimal(n).len() ==> '0' <= #[trigger] decimal(n)[i] <= '9',
        decimal(n).len() > 1 ==> decimal(n)[0] != '0',
        dec_worth(decimal(n)) == n,
{
    let s = decimal(n);
    lemma_numeral(n, 10);
    assert forall|i: int| 0 <= i < s.len() implies '0' <= #[trigger] s[i] <= '9' by {
        assert(digit_value(s[i], 10) is Some);
    }
    lemma_dec_worth(s);
}

/// **A hexadecimal numeral is the shortest text of digits that is worth the number,
/// in lower case.**
pub proof fn law_hexadecimal_numeral(n: nat)
    ensures
        hexadecimal(n).len() > 0,
        forall|i: int|
            0 <= i < hexadecimal(n).len() ==> '0' <= #[trigger] hexadecimal(n)[i] <= '9' || 'a'
                <= hexadecimal(n)[i] <= 'f',
        hexadecimal(n).len() > 1 ==> hexadecimal(n)[0] != '0',
        hex_worth(hexadecimal(n)) == n,
    decreases n,
{
    let s = hexadecimal(n);
    lemma_numeral(n, 16);
    if n < 16 {
        assert(s =~= seq![digit_char(n)]);
        assert(s.drop_last() =~= Seq::<char>::empty());
        assert(hex_worth(s.drop_last()) == 0);
        assert(hexit(s.last()) == Some(n as int));
    } else {
        let less = hexadecimal(n / 16);
        law_hexadecimal_numeral(n / 16);
        assert(s == less.push(digit_char(n % 16)));
        assert(s.drop_last() =~= less);
        assert(hexit(s.last()) == Some((n % 16) as int));
        assert(s[0] == less[0]);
        assert forall|i: int| 0 <= i < s.len() implies '0' <= #[trigger] s[i] <= '9' || 'a' <= s[i]
            <= 'f' by {
            if i < less.len() {
                assert(s[i] == less[i]);
            }
        }
    }
}

/// **Whitespace is what Unicode calls so.**
pub proof fn law_white_space(c: char)
    ensures
        is_white_space(c) <==> (c == '\t' || c == '\n' || c == '\u{b}' || c == '\u{c}' || c == '\r'
            || c == ' ' || c == '\u{85}' || c == '\u{a0}' || c == '\u{1680}' || '\u{2000}' <= c
            <= '\u{200a}' || c == '\u{2028}' || c == '\u{2029}' || c == '\u{202f}' || c
            == '\u{205f}' || c == '\u{3000}'),
{
}

/// **Trimming takes all whitespace from both ends, and nothing else.**
pub proof fn law_trimming_takes_the_whitespace(
    before: Seq<char>,
    core: Seq<char>,
    after: Seq<char>,
)
    requires
        forall|i: int| 0 <= i < before.len() ==> is_white_space(#[trigger] before[i]),
        forall|i: int| 0 <= i < after.len() ==> is_white_space(#[trigger] after[i]),
        core.len() > 0 ==> !is_white_space(core[0]) && !is_white_space(core.last()),
    ensures
        trimmed(before + core + after) == core,
    decreases before.len() + after.len(),
{
    let s = before + core + after;
    if before.len() > 0 {
        let rest = before.skip(1);
        assert(s[0] == before[0]);
        assert(s.skip(1) =~= rest + core + after);
        assert forall|i: int| 0 <= i < rest.len() implies is_white_space(#[trigger] rest[i]) by {
            assert(rest[i] == before[i + 1]);
        }
        law_trimming_takes_the_whitespace(rest, core, after);
    } else if after.len() > 0 {
        if core.len() == 0 {
            let rest = after.skip(1);
            assert(s[0] == after[0]);
            assert(s.skip(1) =~= before + core + rest);
            assert forall|i: int| 0 <= i < rest.len() implies is_white_space(
                #[trigger] rest[i],
            ) by {
                assert(rest[i] == after[i + 1]);
            }
            law_trimming_takes_the_whitespace(before, core, rest);
        } else {
            let rest = after.drop_last();
            assert(s[0] == core[0]);
            assert(s.last() == after[after.len() - 1]);
            assert(s.drop_last() =~= before + core + rest);
            assert forall|i: int| 0 <= i < rest.len() implies is_white_space(
                #[trigger] rest[i],
            ) by {
                assert(rest[i] == after[i]);
            }
            law_trimming_takes_the_whitespace(before, core, rest);
        }
    } else {
        assert(s =~= core);
    }
}

} // verus!
