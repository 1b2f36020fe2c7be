//! Text as sequences of characters: numerals, whitespace, and the few string
//! operations the rest of the library is built from.

use vstd::prelude::*;

verus! {

/// `String::push` of std: "Appends the given char to the end of this String."
pub assume_specification[ std::string::String::push ](s: &mut std::string::String, c: char)
    ensures
        final(s)@ == old(s)@.push(c),
;

/// The text `{:?}` prints for a string: quoted, with its special characters
/// escaped.
pub uninterp spec fn debug_text(s: Seq<char>) -> Seq<char>;

/// Formats a string with the `Debug` impl of std's `str`. Claims only that the
/// text printed depends on the string's characters and nothing else.
#[verifier::external_body]
pub(crate) fn debug_string(s: &str) -> (res: String)
    ensures
        res@ == debug_text(s@),
{
    format!("{s:?}")
}

// ─── Digits ──────────────────────────────────────────────────────────────────

/// The character for a digit value below 16, in lower case.
pub open spec fn digit_char(d: nat) -> char {
    if d < 10 {
        (48 + d) as char
    } else {
        (87 + d) as char
    }
}

/// What a character is worth as a digit of a base up to 16, in either case.
pub open spec fn digit_value(c: char, radix: nat) -> Option<nat> {
    let v: int = if '0' <= c && c <= '9' {
        c as int - 48
    } else if 'a' <= c && c <= 'f' {
        c as int - 87
    } else if 'A' <= c && c <= 'F' {
        c as int - 55
    } else {
        16
    };
    if v < radix && v < 16 {
        Some(v as nat)
    } else {
        None
    }
}

/// Whether every character is a digit of the base.
pub open spec fn all_digits(s: Seq<char>, radix: nat) -> bool {
    forall|i: int| 0 <= i < s.len() ==> #[trigger] digit_value(s[i], radix) is Some
}

/// The number a digit sequence denotes, most significant digit first.
pub open spec fn digits_value(s: Seq<char>, radix: nat) -> nat
    decreases s.len(),
{
    if s.len() == 0 {
        0
    } else {
        digits_value(s.drop_last(), radix) * radix + digit_value(s.last(), radix).unwrap()
    }
}

/// The shortest numeral of `n` in the base: no leading zeros, lower case.
pub open spec fn numeral(n: nat, radix: nat) -> Seq<char>
    decreases n,
{
    if n < radix || radix < 2 {
        seq![digit_char(n)]
    } else {
        proof {
            assert(n / radix < n) by (nonlinear_arith)
                requires
                    n >= radix >= 2,
            ;
        }
        numeral(n / radix, radix).push(digit_char(n % radix))
    }
}

/// The decimal numeral of `n`.
pub open spec fn decimal(n: nat) -> Seq<char> {
    numeral(n, 10)
}

/// The hexadecimal numeral of `n`.
pub open spec fn hexadecimal(n: nat) -> Seq<char> {
    numeral(n, 16)
}

/// The number std's integer parsers read from a text: an optional `+`, then
/// digits only, of any length but at least one.
pub open spec fn unsigned_value(s: Seq<char>, radix: nat) -> Option<nat> {
    let digits = if s.len() > 0 && s[0] == '+' {
        s.skip(1)
    } else {
        s
    };
    if digits.len() > 0 && all_digits(digits, radix) {
        Some(digits_value(digits, radix))
    } else {
        None
    }
}

/// A digit and its character say the same thing.
pub proof fn lemma_digit_char(d: nat, radix: nat)
    requires
        d < radix <= 16,
    ensures
        digit_value(digit_char(d), radix) == Some(d),
        digit_char(d) == '0' ==> d == 0,
{
}

/// A numeral is a non-empty run of digits that denotes its number, without a
/// leading zero unless it is the single digit zero.
pub proof fn lemma_numeral(n: nat, radix: nat)
    requires
        2 <= radix <= 16,
    ensures
        numeral(n, radix).len() > 0,
        all_digits(numeral(n, radix), radix),
        digits_value(numeral(n, radix), radix) == n,
        n > 0 ==> numeral(n, radix)[0] != '0',
        n < radix ==> numeral(n, radix).len() == 1,
    decreases n,
{
    if n < radix {
        lemma_digit_char(n, radix);
        let s = numeral(n, radix);
        assert(s.drop_last() =~= Seq::<char>::empty());
        assert(s.last() == digit_char(n));
        assert(digits_value(s.drop_last(), radix) == 0);
        assert(0 * radix == 0);
    } else {
        let q = n / radix;
        assert(0 < q < n && n == q * radix + n % radix) by (nonlinear_arith)
            requires
                2 <= radix <= n,
                q == n / radix,
        ;
        lemma_numeral(q, radix);
        lemma_digit_char(n % radix, radix);
        let s = numeral(n, radix);
        assert(s.drop_last() =~= numeral(q, radix));
        assert(s.last() == digit_char(n % radix));
        assert forall|i: int| 0 <= i < s.len() implies #[trigger] digit_value(s[i], radix) is Some by {
            if i < s.len() - 1 {
                assert(s[i] == numeral(q, radix)[i]);
            }
        }
    }
}

/// A numeral of a number below a power of the base has no more digits than the
/// power's exponent.
pub proof fn lemma_numeral_len(n: nat, radix: nat, digits: nat, bound: nat)
    requires
        2 <= radix <= 16,
        digits > 0,
        n < bound,
        bound == power(radix, digits),
    ensures
        numeral(n, radix).len() <= digits,
    decreases digits,
{
    if n >= radix {
        if digits == 1 {
            assert(power(radix, 1) == radix * power(radix, 0));
            assert(radix * 1 == radix);
        } else {
            let below = power(radix, (digits - 1) as nat);
            assert(n / radix < below) by (nonlinear_arith)
                requires
                    n < radix * below,
                    radix >= 2,
            ;
            lemma_numeral_len(n / radix, radix, (digits - 1) as nat, below);
        }
    }
}

/// The base multiplied by itself `exponent` times.
pub open spec fn power(radix: nat, exponent: nat) -> nat
    decreases exponent,
{
    if exponent == 0 {
        1
    } else {
        radix * power(radix, (exponent - 1) as nat)
    }
}

/// A run of digits is below the base to the power of its length.
pub proof fn lemma_digits_value_bound(s: Seq<char>, radix: nat)
    requires
        2 <= radix <= 16,
        all_digits(s, radix),
    ensures
        digits_value(s, radix) < power(radix, s.len()),
    decreases s.len(),
{
    if s.len() > 0 {
        lemma_digits_value_bound(s.drop_last(), radix);
        let v = digits_value(s.drop_last(), radix);
        let p = power(radix, (s.len() - 1) as nat);
        let d = digit_value(s.last(), radix).unwrap();
        assert(digit_value(s[s.len() - 1], radix) is Some);
        assert(v * radix + d < radix * p) by (nonlinear_arith)
            requires
                v + 1 <= p,
                d < radix,
        ;
    }
}

/// The only digit run without a superfluous leading zero that denotes `n` is
/// the numeral of `n` (decimal digits have one case only).
pub proof fn lemma_decimal_unique(s: Seq<char>)
    requires
        s.len() > 0,
        all_digits(s, 10),
        s.len() > 1 ==> s[0] != '0',
    ensures
        s == decimal(digits_value(s, 10)),
    decreases s.len(),
{
    let c = s.last();
    assert(digit_value(s[s.len() - 1], 10) is Some);
    let d = digit_value(c, 10).unwrap();
    assert(digit_char(d) == c);
    let t = s.drop_last();
    if s.len() == 1 {
        assert(t =~= Seq::<char>::empty());
        assert(digits_value(t, 10) == 0);
        assert(s =~= seq![c]);
    } else {
        assert forall|i: int| 0 <= i < t.len() implies #[trigger] digit_value(t[i], 10) is Some by {
            assert(t[i] == s[i]);
        }
        assert(t[0] == s[0]);
        lemma_decimal_unique(t);
        let v = digits_value(t, 10);
        if v == 0 {
            assert(t == decimal(0));
            assert(t[0] == digit_char(0));
            assert(false);
        }
        let n = digits_value(s, 10);
        assert(n == v * 10 + d);
        assert(n / 10 == v && n % 10 == d);
        assert(s =~= decimal(v).push(c));
    }
}

// ─── Whitespace ──────────────────────────────────────────────────────────────

/// Unicode's `White_Space` property, which `str::trim` goes by.
pub open spec fn is_white_space(c: char) -> bool {
    let n = c as u32;
    ||| 0x9 <= n <= 0xD
    ||| n == 0x20
    ||| n == 0x85
    ||| n == 0xA0
    ||| n == 0x1680
    ||| 0x2000 <= n <= 0x200A
    ||| n == 0x2028
    ||| n == 0x2029
    ||| n == 0x202F
    ||| n == 0x205F
    ||| n == 0x3000
}

/// The sequence without the whitespace at its ends.
pub open spec fn trimmed(s: Seq<char>) -> Seq<char>
    decreases s.len(),
{
    if s.len() == 0 {
        s
    } else if is_white_space(s[0]) {
        trimmed(s.skip(1))
    } else if is_white_space(s.last()) {
        trimmed(s.drop_last())
    } else {
        s
    }
}

/// Whether `c` has the `White_Space` property.
pub fn white_space(c: char) -> (res: bool)
    ensures
        res == is_white_space(c),
{
    let n: u32 = c as u32;
    (0x9 <= n && n <= 0xD) || n == 0x20 || n == 0x85 || n == 0xA0 || n == 0x1680 || (0x2000 <= n
        && n <= 0x200A) || n == 0x2028 || n == 0x2029 || n == 0x202F || n == 0x205F || n == 0x3000
}

/// The bounds of the text left once the whitespace at both ends is dropped.
pub fn trim_bounds(chars: &Vec<char>) -> (res: (usize, usize))
    ensures
        res.0 <= res.1 <= chars@.len(),
        chars@.subrange(res.0 as int, res.1 as int) == trimmed(chars@),
{
    let mut start: usize = 0;
    let mut end: usize = chars.len();
    assert(chars@.subrange(0, end as int) =~= chars@);
    while start < end && white_space(chars[start])
        invariant
            start <= end == chars@.len(),
            trimmed(chars@.subrange(start as int, end as int)) == trimmed(chars@),
        decreases end - start,
    {
        assert(chars@.subrange(start as int, end as int).skip(1) =~= chars@.subrange(
            start + 1,
            end as int,
        ));
        start = start + 1;
    }
    while start < end && white_space(chars[end - 1])
        invariant
            start <= end <= chars@.len(),
            start < end ==> !is_white_space(chars@[start as int]),
            trimmed(chars@.subrange(start as int, end as int)) == trimmed(chars@),
        decreases end - start,
    {
        assert(chars@.subrange(start as int, end as int).drop_last() =~= chars@.subrange(
            start as int,
            end - 1,
        ));
        end = end - 1;
    }
    (start, end)
}

// ─── Strings ─────────────────────────────────────────────────────────────────

/// The characters of a string.
pub fn chars_of(s: &str) -> (res: Vec<char>)
    ensures
        res@ == s@,
{
    let mut out: Vec<char> = Vec::new();
    for c in iter: s.chars()
        invariant
            out@ =~= s@.take(iter.index()),
            iter.seq() == s@,
    {
        out.push(c);
    }
    assert(s@.take(s@.len() as int) =~= s@);
    out
}

/// The string made of `chars[from..to]`.
pub fn string_of(chars: &Vec<char>, from: usize, to: usize) -> (res: String)
    requires
        from <= to <= chars@.len(),
    ensures
        res@ == chars@.subrange(from as int, to as int),
{
    let mut out = String::new();
    let mut i: usize = from;
    while i < to
        invariant
            from <= i <= to <= chars@.len(),
            out@ =~= chars@.subrange(from as int, i as int),
        decreases to - i,
    {
        out.push(chars[i]);
        i = i + 1;
    }
    out
}

/// Whether two strings hold the same characters.
pub fn same_text(a: &str, b: &str) -> (res: bool)
    ensures
        res == (a@ == b@),
{
    let x = chars_of(a);
    let y = chars_of(b);
    if x.len() != y.len() {
        return false;
    }
    let mut i: usize = 0;
    while i < x.len()
        invariant
            i <= x@.len() == y@.len(),
            forall|j: int| 0 <= j < i ==> x@[j] == y@[j],
            x@ == a@,
            y@ == b@,
        decreases x.len() - i,
    {
        if x[i] != y[i] {
            return false;
        }
        i = i + 1;
    }
    assert(a@ =~= b@);
    true
}

/// Whether a string holds a character.
pub fn contains_char(s: &str, c: char) -> (res: bool)
    ensures
        res == s@.contains(c),
{
    let chars = chars_of(s);
    let mut i: usize = 0;
    while i < chars.len()
        invariant
            i <= chars@.len(),
            chars@ == s@,
            forall|j: int| 0 <= j < i ==> s@[j] != c,
        decreases chars.len() - i,
    {
        if chars[i] == c {
            assert(s@[i as int] == c);
            return true;
        }
        i = i + 1;
    }
    false
}

/// The one place that holds `c` with none before it is the first.
pub proof fn lemma_first(s: Seq<char>, c: char, i: int)
    requires
        0 <= i < s.len(),
        s[i] == c,
        forall|j: int| 0 <= j < i ==> s[j] != c,
    ensures
        s.index_of_first(c) == Some(i),
{
    s.index_of_first_ensures(c);
    assert(s.contains(c));
}

/// The one place that holds `c` with none after it is the last.
pub proof fn lemma_last(s: Seq<char>, c: char, i: int)
    requires
        0 <= i < s.len(),
        s[i] == c,
        forall|j: int| i < j < s.len() ==> s[j] != c,
    ensures
        s.index_of_last(c) == Some(i),
{
    s.index_of_last_ensures(c);
    assert(s.contains(c));
}

/// Where `c` first stands in `chars[from..to]`.
pub fn find_first(chars: &Vec<char>, from: usize, to: usize, c: char) -> (res: Option<usize>)
    requires
        from <= to <= chars@.len(),
    ensures
        match res {
            Some(i) => from <= i < to && chars@[i as int] == c && chars@.subrange(
                from as int,
                to as int,
            ).index_of_first(c) == Some(i - from),
            None => chars@.subrange(from as int, to as int).index_of_first(c) is None && !chars@
                .subrange(from as int, to as int).contains(c),
        },
{
    let ghost s = chars@.subrange(from as int, to as int);
    let mut i: usize = from;
    while i < to
        invariant
            from <= i <= to <= chars@.len(),
            s == chars@.subrange(from as int, to as int),
            forall|j: int| 0 <= j < i - from ==> s[j] != c,
        decreases to - i,
    {
        assert(s[i - from] == chars@[i as int]);
        if chars[i] == c {
            proof {
                lemma_first(s, c, i - from);
            }
            return Some(i);
        }
        i = i + 1;
    }
    proof {
        s.index_of_first_ensures(c);
    }
    None
}

/// Where `c` last stands in `chars[from..to]`.
pub fn find_last(chars: &Vec<char>, from: usize, to: usize, c: char) -> (res: Option<usize>)
    requires
        from <= to <= chars@.len(),
    ensures
        match res {
            Some(i) => from <= i < to && chars@[i as int] == c && chars@.subrange(
                from as int,
                to as int,
            ).index_of_last(c) == Some(i - from),
            None => chars@.subrange(from as int, to as int).index_of_last(c) is None && !chars@
                .subrange(from as int, to as int).contains(c),
        },
{
    let ghost s = chars@.subrange(from as int, to as int);
    let mut i: usize = to;
    while i > from
        invariant
            from <= i <= to <= chars@.len(),
            s == chars@.subrange(from as int, to as int),
            forall|j: int| i - from <= j < s.len() ==> s[j] != c,
        decreases i - from,
    {
        i = i - 1;
        assert(s[i - from] == chars@[i as int]);
        if chars[i] == c {
            proof {
                lemma_last(s, c, i - from);
            }
            return Some(i);
        }
    }
    proof {
        s.index_of_last_ensures(c);
    }
    None
}

// ─── Numerals ────────────────────────────────────────────────────────────────

/// The digit a character stands for in the base, if it is one.
pub fn digit_of(c: char, radix: u32) -> (res: Option<u32>)
    requires
        radix <= 16,
    ensures
        match res {
            Some(d) => digit_value(c, radix as nat) == Some(d as nat),
            None => digit_value(c, radix as nat) is None,
        },
{
    let n: u32 = c as u32;
    let v: u32 = if '0' <= c && c <= '9' {
        n - 48
    } else if 'a' <= c && c <= 'f' {
        n - 87
    } else if 'A' <= c && c <= 'F' {
        n - 55
    } else {
        16
    };
    if v < radix {
        Some(v)
    } else {
        None
    }
}

/// The lower-case character of a digit below 16.
pub fn char_of_digit(d: u8) -> (res: char)
    requires
        d < 16,
    ensures
        res == digit_char(d as nat),
{
    if d < 10 {
        (48 + d) as char
    } else {
        (87 + d) as char
    }
}

/// Appends the numeral of `n` in the base.
pub fn push_numeral(out: &mut String, n: u64, radix: u64)
    requires
        2 <= radix <= 16,
    ensures
        final(out)@ == old(out)@ + numeral(n as nat, radix as nat),
    decreases n,
{
    let ghost before = out@;
    if n >= radix {
        assert(n as int / radix as int >= 0 && n as int / radix as int <= n as int - 1)
            by (nonlinear_arith)
            requires
                n >= radix >= 2,
        ;
        push_numeral(out, n / radix, radix);
    }
    assert(0 <= n as int % radix as int && (n as int % radix as int) < radix as int)
        by (nonlinear_arith)
        requires
            radix >= 2,
    ;
    let ghost middle = out@;
    out.push(char_of_digit((n % radix) as u8));
    proof {
        if n < radix {
            assert(n as int % radix as int == n as int) by (nonlinear_arith)
                requires
                    n < radix,
            ;
        }
        assert(out@ =~= before + numeral(n as nat, radix as nat));
    }
}

/// Reads the number a text denotes in the base, if it fits under `max`: an
/// optional `+` and then digits only.
pub fn parse_unsigned(chars: &Vec<char>, from: usize, to: usize, radix: u32, max: u32) -> (res:
    Option<u32>)
    requires
        from <= to <= chars@.len(),
        2 <= radix <= 16,
        max <= 0xFF_FFFF,
    ensures
        match res {
            Some(v) => unsigned_value(chars@.subrange(from as int, to as int), radix as nat) == Some(
                v as nat,
            ) && v <= max,
            None => match unsigned_value(chars@.subrange(from as int, to as int), radix as nat) {
                Some(v) => v > max,
                None => true,
            },
        },
{
    let ghost s = chars@.subrange(from as int, to as int);
    let start: usize = if from < to && chars[from] == '+' {
        from + 1
    } else {
        from
    };
    let ghost digits = chars@.subrange(start as int, to as int);
    proof {
        if start == from + 1 {
            assert(s[0] == '+');
            assert(digits =~= s.skip(1));
        } else {
            assert(digits =~= s);
            assert(from < to ==> s[0] == chars@[from as int]);
        }
    }
    if start == to {
        return None;
    }
    let mut value: u32 = 0;
    let mut over: bool = false;
    let mut i: usize = start;
    while i < to
        invariant
            start <= i <= to <= chars@.len(),
            2 <= radix <= 16,
            max <= 0xFF_FFFF,
            s == chars@.subrange(from as int, to as int),
            digits == chars@.subrange(start as int, to as int),
            all_digits(digits.take(i - start), radix as nat),
            over ==> digits_value(digits.take(i - start), radix as nat) > max,
            !over ==> value == digits_value(digits.take(i - start), radix as nat) && value <= max,
            unsigned_value(s, radix as nat) == (if digits.len() > 0 && all_digits(
                digits,
                radix as nat,
            ) {
                Some(digits_value(digits, radix as nat))
            } else {
                None
            }),
        decreases to - i,
    {
        let ghost before = digits.take(i - start);
        let ghost after = digits.take(i - start + 1);
        assert(digits[i - start] == chars@[i as int]);
        assert(after.drop_last() =~= before);
        assert(after.last() == chars@[i as int]);
        let d: u32 = match digit_of(chars[i], radix) {
            Some(d) => d,
            None => {
                assert(digit_value(digits[i - start], radix as nat) is None);
                return None;
            },
        };
        assert forall|j: int| 0 <= j < after.len() implies #[trigger] digit_value(
            after[j],
            radix as nat,
        ) is Some by {
            if j < before.len() {
                assert(after[j] == before[j]);
            }
        }
        proof {
            let v = digits_value(before, radix as nat);
            assert(v <= v * radix) by (nonlinear_arith)
                requires
                    radix >= 1,
            ;
            assert(!over ==> v * radix <= 0xFF_FFFF * 16) by (nonlinear_arith)
                requires
                    !over ==> v <= 0xFF_FFFF,
                    radix <= 16,
            ;
        }
        if !over {
            value = value * radix + d;
            if value > max {
                over = true;
            }
        }
        i = i + 1;
    }
    assert(digits.take(to - start) =~= digits);
    if over {
        None
    } else {
        Some(value)
    }
}

} // verus!
