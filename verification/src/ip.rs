//! IP literals: the textual forms of IPv4 and IPv6 addresses.

use crate::text::{
    all_digits, decimal, digit_of, digit_value, digits_value, find_first, hexadecimal,
    lemma_decimal_unique, lemma_digits_value_bound, lemma_numeral, lemma_numeral_len, power,
    push_numeral,
};
use vstd::prelude::*;

verus! {

// ─── IPv4 ────────────────────────────────────────────────────────────────────

/// The dotted-decimal text of four octets.
pub open spec fn dotted(a: u8, b: u8, c: u8, d: u8) -> Seq<char> {
    decimal(a as nat) + seq!['.'] + decimal(b as nat) + seq!['.'] + decimal(c as nat) + seq!['.']
        + decimal(d as nat)
}

/// Whether a text is an IPv4 literal: the dotted-decimal text of some address.
/// Leading zeros, which some readers take for octal, make no literal.
pub open spec fn is_ipv4(s: Seq<char>) -> bool {
    exists|a: u8, b: u8, c: u8, d: u8| s == #[trigger] dotted(a, b, c, d)
}

/// A decimal octet: what its numeral looks like.
pub proof fn lemma_octet(v: u8)
    ensures
        1 <= decimal(v as nat).len() <= 3,
        all_digits(decimal(v as nat), 10),
        digits_value(decimal(v as nat), 10) == v,
        decimal(v as nat).len() > 1 ==> decimal(v as nat)[0] != '0',
{
    lemma_numeral(v as nat, 10);
    reveal_with_fuel(power, 4);
    lemma_numeral_len(v as nat, 10, 3, 1000);
}

/// Where the run of decimal digits that starts at `from` ends.
fn digits_end(chars: &Vec<char>, from: usize, to: usize) -> (end: usize)
    requires
        from <= to <= chars@.len(),
    ensures
        from <= end <= to,
        all_digits(chars@.subrange(from as int, end as int), 10),
        end < to ==> digit_value(chars@[end as int], 10) is None,
{
    let mut end: usize = from;
    while end < to
        invariant
            from <= end <= to <= chars@.len(),
            all_digits(chars@.subrange(from as int, end as int), 10),
        ensures
            from <= end <= to,
            all_digits(chars@.subrange(from as int, end as int), 10),
            end < to ==> digit_value(chars@[end as int], 10) is None,
        decreases to - end,
    {
        if digit_of(chars[end], 10).is_none() {
            break;
        }
        let ghost more = chars@.subrange(from as int, end + 1);
        let ghost less = chars@.subrange(from as int, end as int);
        assert forall|i: int| 0 <= i < more.len() implies #[trigger] digit_value(more[i], 10)
            is Some by {
            if i < less.len() {
                assert(more[i] == less[i]);
            }
        }
        end = end + 1;
    }
    end
}

/// Whether the octet's numeral stands at `from` and no further digit follows.
spec fn octet_at(s: Seq<char>, from: int, to: int, v: u8, end: int) -> bool {
    &&& from <= end <= to
    &&& s.subrange(from, end) == decimal(v as nat)
    &&& end < to ==> digit_value(s[end], 10) is None
}

/// Reads the octet at `from`.
fn read_octet(chars: &Vec<char>, from: usize, to: usize) -> (res: Option<(u8, usize)>)
    requires
        from <= to <= chars@.len(),
    ensures
        match res {
            Some((v, end)) => octet_at(chars@, from as int, to as int, v, end as int) && forall|
                w: u8,
                e: int,
            |
                octet_at(chars@, from as int, to as int, w, e) ==> w == v && e == end,
            None => forall|w: u8, e: int| !octet_at(chars@, from as int, to as int, w, e),
        },
{
    let end: usize = digits_end(chars, from, to);
    let ghost run = chars@.subrange(from as int, end as int);
    proof {
        assert forall|w: u8, e: int| octet_at(chars@, from as int, to as int, w, e) implies e == end
            && run == decimal(w as nat) by {
            let text = chars@.subrange(from as int, e);
            lemma_octet(w);
            if e < end {
                assert(run[e - from] == chars@[e]);
                assert(digit_value(run[e - from], 10) is Some);
            } else if end < e {
                assert(text[end - from] == chars@[end as int]);
                assert(digit_value(text[end - from], 10) is Some);
            }
        }
    }
    let len: usize = end - from;
    if len == 0 || len > 3 || (len > 1 && chars[from] == '0') {
        proof {
            assert forall|w: u8, e: int| !octet_at(chars@, from as int, to as int, w, e) by {
                if octet_at(chars@, from as int, to as int, w, e) {
                    lemma_octet(w);
                    assert(len > 0 ==> run[0] == chars@[from as int]);
                }
            }
        }
        return None;
    }
    let mut value: u32 = 0;
    let mut i: usize = from;
    proof {
        assert(run.take(0) =~= Seq::<char>::empty());
    }
    while i < end
        invariant
            from <= i <= end <= chars@.len(),
            end - from <= 3,
            run == chars@.subrange(from as int, end as int),
            all_digits(run, 10),
            value == digits_value(run.take(i - from), 10),
            i - from == 0 ==> value == 0,
            i - from == 1 ==> value < 10,
            i - from == 2 ==> value < 100,
            i - from == 3 ==> value < 1000,
        decreases end - i,
    {
        assert(run[i - from] == chars@[i as int]);
        assert(digit_value(run[i - from], 10) is Some);
        let ghost next = run.take(i - from + 1);
        assert(next.drop_last() =~= run.take(i - from));
        assert(next.last() == chars@[i as int]);
        if let Some(d) = digit_of(chars[i], 10) {
            value = value * 10 + d;
        }
        i = i + 1;
    }
    assert(run.take(end - from) =~= run);
    if value > 255 {
        proof {
            assert forall|w: u8, e: int| !octet_at(chars@, from as int, to as int, w, e) by {
                if octet_at(chars@, from as int, to as int, w, e) {
                    lemma_octet(w);
                }
            }
        }
        return None;
    }
    proof {
        assert(run[0] == chars@[from as int]);
        lemma_decimal_unique(run);
        assert forall|w: u8, e: int| octet_at(chars@, from as int, to as int, w, e) implies w
            == value && e == end by {
            lemma_octet(w);
        }
    }
    Some((value as u8, end))
}

/// Where the four octets of a dotted-decimal text stand.
proof fn lemma_dotted_octets(s: Seq<char>, from: int, to: int, a: u8, b: u8, c: u8, d: u8)
    requires
        0 <= from <= to <= s.len(),
        s.subrange(from, to) == dotted(a, b, c, d),
    ensures
        ({
            let p = from + decimal(a as nat).len();
            let q = p + 1 + decimal(b as nat).len();
            let r = q + 1 + decimal(c as nat).len();
            &&& octet_at(s, from, to, a, p)
            &&& p < to && s[p] == '.'
            &&& octet_at(s, p + 1, to, b, q)
            &&& q < to && s[q] == '.'
            &&& octet_at(s, q + 1, to, c, r)
            &&& r < to && s[r] == '.'
            &&& octet_at(s, r + 1, to, d, to)
        }),
{
    let t = dotted(a, b, c, d);
    let (ta, tb, tc, td) = (
        decimal(a as nat),
        decimal(b as nat),
        decimal(c as nat),
        decimal(d as nat),
    );
    lemma_octet(a);
    lemma_octet(b);
    lemma_octet(c);
    lemma_octet(d);
    assert(t.len() == to - from);
    let p = from + ta.len();
    let q = p + 1 + tb.len();
    let r = q + 1 + tc.len();
    assert(r + 1 + td.len() == to);
    assert forall|i: int| from <= i < to implies s[i] == t[i - from] by {
        assert(s.subrange(from, to)[i - from] == s[i]);
    }
    assert(s.subrange(from, p) =~= ta);
    assert(s[p] == '.' && s[q] == '.' && s[r] == '.');
    assert(s.subrange(p + 1, q) =~= tb);
    assert(s.subrange(q + 1, r) =~= tc);
    assert(s.subrange(r + 1, to) =~= td);
    assert(digit_value('.', 10) is None);
}

/// Reads an IPv4 literal.
pub fn read_ipv4(chars: &Vec<char>, from: usize, to: usize) -> (res: Option<(u8, u8, u8, u8)>)
    requires
        from <= to <= chars@.len(),
    ensures
        match res {
            Some((a, b, c, d)) => chars@.subrange(from as int, to as int) == dotted(a, b, c, d)
                && forall|w: u8, x: u8, y: u8, z: u8|
                chars@.subrange(from as int, to as int) == #[trigger] dotted(w, x, y, z) ==> w == a
                    && x == b && y == c && z == d,
            None => !is_ipv4(chars@.subrange(from as int, to as int)),
        },
{
    let ghost s = chars@;
    let ghost whole = chars@.subrange(from as int, to as int);
    proof {
        assert forall|w: u8, x: u8, y: u8, z: u8| whole == #[trigger] dotted(w, x, y, z) implies ({
            let p = from + decimal(w as nat).len();
            let q = p + 1 + decimal(x as nat).len();
            let r = q + 1 + decimal(y as nat).len();
            &&& octet_at(s, from as int, to as int, w, p)
            &&& p < to && s[p] == '.'
            &&& octet_at(s, p + 1, to as int, x, q)
            &&& q < to && s[q] == '.'
            &&& octet_at(s, q + 1, to as int, y, r)
            &&& r < to && s[r] == '.'
            &&& octet_at(s, r + 1, to as int, z, to as int)
        }) by {
            lemma_dotted_octets(s, from as int, to as int, w, x, y, z);
        }
    }
    let (a, p) = match read_octet(chars, from, to) {
        Some(octet) => octet,
        None => return None,
    };
    if p == to || chars[p] != '.' {
        return None;
    }
    let (b, q) = match read_octet(chars, p + 1, to) {
        Some(octet) => octet,
        None => return None,
    };
    if q == to || chars[q] != '.' {
        return None;
    }
    let (c, r) = match read_octet(chars, q + 1, to) {
        Some(octet) => octet,
        None => return None,
    };
    if r == to || chars[r] != '.' {
        return None;
    }
    let (d, end) = match read_octet(chars, r + 1, to) {
        Some(octet) => octet,
        None => return None,
    };
    if end != to {
        return None;
    }
    assert(whole =~= dotted(a, b, c, d)) by {
        assert(whole =~= s.subrange(from as int, p as int) + seq!['.'] + s.subrange(
            p + 1,
            q as int,
        ) + seq!['.'] + s.subrange(q + 1, r as int) + seq!['.'] + s.subrange(r + 1, to as int));
    }
    Some((a, b, c, d))
}

// ─── IPv6 ────────────────────────────────────────────────────────────────────

/// Whether a text is a group of an IPv6 literal: one to four hexadecimal
/// digits.
pub open spec fn is_group(s: Seq<char>) -> bool {
    1 <= s.len() <= 4 && all_digits(s, 16)
}

/// What a group is worth.
pub open spec fn group_value(s: Seq<char>) -> u16 {
    digits_value(s, 16) as u16
}

/// The two groups that an embedded IPv4 literal stands for.
pub open spec fn ipv4_groups(s: Seq<char>) -> Option<Seq<u16>> {
    if is_ipv4(s) {
        let (a, b, c, d) = choose|a: u8, b: u8, c: u8, d: u8| s == #[trigger] dotted(a, b, c, d);
        Some(seq![(a * 256 + b) as u16, (c * 256 + d) as u16])
    } else {
        None
    }
}

/// The groups that a colon-separated list denotes. Where `v4_ok` says so, the
/// last item may be an IPv4 literal.
pub open spec fn groups(s: Seq<char>, v4_ok: bool) -> Option<Seq<u16>>
    decreases s.len(),
{
    match s.index_of_first(':') {
        Some(i) => if 0 <= i < s.len() && is_group(s.take(i)) {
            match groups(s.skip(i + 1), v4_ok) {
                Some(rest) => Some(seq![group_value(s.take(i))] + rest),
                None => None,
            }
        } else {
            None
        },
        None => if is_group(s) {
            Some(seq![group_value(s)])
        } else if v4_ok {
            ipv4_groups(s)
        } else {
            None
        },
    }
}

/// Where `::` first stands at or after `i`.
pub open spec fn gap_from(s: Seq<char>, i: int) -> Option<int>
    decreases s.len() - i,
{
    if i + 1 >= s.len() {
        None
    } else if s[i] == ':' && s[i + 1] == ':' {
        Some(i)
    } else {
        gap_from(s, i + 1)
    }
}

/// One side of a `::`, which may be empty.
pub open spec fn side_groups(s: Seq<char>, v4_ok: bool) -> Option<Seq<u16>> {
    if s.len() == 0 {
        Some(Seq::empty())
    } else {
        groups(s, v4_ok)
    }
}

/// A run of zero groups.
pub open spec fn zeros(n: nat) -> Seq<u16> {
    Seq::new(n, |i: int| 0u16)
}

/// The eight groups that an IPv6 literal denotes: all of them written out, or
/// some on either side of a `::` that stands for the zero groups missing, one
/// at least.
pub open spec fn ipv6_groups(s: Seq<char>) -> Option<Seq<u16>> {
    match gap_from(s, 0) {
        None => match groups(s, true) {
            Some(all) => if all.len() == 8 {
                Some(all)
            } else {
                None
            },
            None => None,
        },
        Some(k) => match (side_groups(s.take(k), false), side_groups(s.skip(k + 2), true)) {
            (Some(head), Some(tail)) => if head.len() + tail.len() <= 7 {
                Some(head + zeros((8 - head.len() - tail.len()) as nat) + tail)
            } else {
                None
            },
            _ => None,
        },
    }
}

/// Whether a text is an IPv6 literal.
pub open spec fn is_ipv6(s: Seq<char>) -> bool {
    ipv6_groups(s) is Some
}

/// Whether a text is an IP literal.
pub open spec fn is_ip(s: Seq<char>) -> bool {
    is_ipv4(s) || is_ipv6(s)
}

/// Reads a group.
fn read_group(chars: &Vec<char>, from: usize, to: usize) -> (res: Option<u16>)
    requires
        from <= to <= chars@.len(),
    ensures
        match res {
            Some(v) => is_group(chars@.subrange(from as int, to as int)) && v == group_value(
                chars@.subrange(from as int, to as int),
            ),
            None => !is_group(chars@.subrange(from as int, to as int)),
        },
{
    let ghost s = chars@.subrange(from as int, to as int);
    if to == from || to - from > 4 {
        return None;
    }
    let mut value: u32 = 0;
    let mut i: usize = from;
    assert(s.take(0) =~= Seq::<char>::empty());
    proof {
        reveal_with_fuel(power, 5);
    }
    while i < to
        invariant
            from <= i <= to <= chars@.len(),
            to - from <= 4,
            s == chars@.subrange(from as int, to as int),
            all_digits(s.take(i - from), 16),
            value == digits_value(s.take(i - from), 16),
            value < power(16, (i - from) as nat),
            power(16, 0) == 1,
            power(16, 1) == 16,
            power(16, 2) == 256,
            power(16, 3) == 4096,
            power(16, 4) == 65536,
        decreases to - i,
    {
        let ghost next = s.take(i - from + 1);
        assert(next.drop_last() =~= s.take(i - from));
        assert(next.last() == chars@[i as int]);
        match digit_of(chars[i], 16) {
            Some(d) => {
                value = value * 16 + d;
                assert forall|j: int| 0 <= j < next.len() implies #[trigger] digit_value(
                    next[j],
                    16,
                ) is Some by {
                    if j < i - from {
                        assert(next[j] == s.take(i - from)[j]);
                    }
                }
                proof {
                    lemma_digits_value_bound(next, 16);
                }
            },
            None => {
                assert(digit_value(s[i - from], 16) is None);
                return None;
            },
        }
        i = i + 1;
    }
    assert(s.take(to - from) =~= s);
    Some(value as u16)
}

/// Reads a colon-separated list of groups.
fn read_groups(chars: &Vec<char>, from: usize, to: usize, v4_ok: bool) -> (res: Option<Vec<u16>>)
    requires
        from <= to <= chars@.len(),
    ensures
        match res {
            Some(v) => groups(chars@.subrange(from as int, to as int), v4_ok) == Some(v@),
            None => groups(chars@.subrange(from as int, to as int), v4_ok) is None,
        },
{
    let ghost whole = groups(chars@.subrange(from as int, to as int), v4_ok);
    let mut out: Vec<u16> = Vec::new();
    let mut pos: usize = from;
    proof {
        if let Some(rest) = whole {
            assert(Seq::<u16>::empty() + rest =~= rest);
        }
    }
    loop
        invariant
            from <= pos <= to <= chars@.len(),
            whole == groups(chars@.subrange(from as int, to as int), v4_ok),
            match groups(chars@.subrange(pos as int, to as int), v4_ok) {
                Some(rest) => whole == Some(out@ + rest),
                None => whole is None,
            },
        decreases to - pos,
    {
        let ghost s = chars@.subrange(pos as int, to as int);
        let ghost before = out@;
        match find_first(chars, pos, to, ':') {
            Some(i) => {
                assert(s.take(i - pos) =~= chars@.subrange(pos as int, i as int));
                assert(s.skip(i - pos + 1) =~= chars@.subrange(i + 1, to as int));
                match read_group(chars, pos, i) {
                    Some(v) => {
                        out.push(v);
                        proof {
                            if let Some(rest) = groups(s.skip(i - pos + 1), v4_ok) {
                                assert(before + (seq![v] + rest) =~= out@ + rest);
                            }
                        }
                        pos = i + 1;
                    },
                    None => {
                        return None;
                    },
                }
            },
            None => {
                if let Some(v) = read_group(chars, pos, to) {
                    out.push(v);
                    assert(out@ =~= before + seq![v]);
                    return Some(out);
                }
                if v4_ok {
                    if let Some((a, b, c, d)) = read_ipv4(chars, pos, to) {
                        let high: u16 = a as u16 * 256 + b as u16;
                        let low: u16 = c as u16 * 256 + d as u16;
                        out.push(high);
                        out.push(low);
                        assert(out@ =~= before + seq![high, low]);
                        return Some(out);
                    }
                }
                return None;
            },
        }
    }
}

/// Where `::` first stands in `chars[from..to]`.
fn find_gap(chars: &Vec<char>, from: usize, to: usize) -> (res: Option<usize>)
    requires
        from <= to <= chars@.len(),
    ensures
        match res {
            Some(k) => from <= k && k + 2 <= to && gap_from(
                chars@.subrange(from as int, to as int),
                0,
            ) == Some(k - from),
            None => gap_from(chars@.subrange(from as int, to as int), 0) is None,
        },
{
    let ghost s = chars@.subrange(from as int, to as int);
    let mut i: usize = from;
    while to - i >= 2
        invariant
            from <= i <= to <= chars@.len(),
            s == chars@.subrange(from as int, to as int),
            gap_from(s, i - from) == gap_from(s, 0),
        decreases to - i,
    {
        assert(s[i - from] == chars@[i as int]);
        assert(s[i - from + 1] == chars@[i + 1]);
        if chars[i] == ':' && chars[i + 1] == ':' {
            return Some(i);
        }
        i = i + 1;
    }
    None
}

/// Reads one side of a `::`.
fn read_side(chars: &Vec<char>, from: usize, to: usize, v4_ok: bool) -> (res: Option<Vec<u16>>)
    requires
        from <= to <= chars@.len(),
    ensures
        match res {
            Some(v) => side_groups(chars@.subrange(from as int, to as int), v4_ok) == Some(v@),
            None => side_groups(chars@.subrange(from as int, to as int), v4_ok) is None,
        },
{
    if from == to {
        let none: Vec<u16> = Vec::new();
        Some(none)
    } else {
        read_groups(chars, from, to, v4_ok)
    }
}

/// Reads an IPv6 literal.
pub fn read_ipv6(chars: &Vec<char>, from: usize, to: usize) -> (res: Option<Vec<u16>>)
    requires
        from <= to <= chars@.len(),
    ensures
        match res {
            Some(v) => ipv6_groups(chars@.subrange(from as int, to as int)) == Some(v@) && v@.len()
                == 8,
            None => !is_ipv6(chars@.subrange(from as int, to as int)),
        },
{
    let ghost s = chars@.subrange(from as int, to as int);
    match find_gap(chars, from, to) {
        None => match read_groups(chars, from, to, true) {
            Some(all) => if all.len() == 8 {
                Some(all)
            } else {
                None
            },
            None => None,
        },
        Some(k) => {
            assert(s.take(k - from) =~= chars@.subrange(from as int, k as int));
            assert(s.skip(k - from + 2) =~= chars@.subrange(k + 2, to as int));
            let mut all = match read_side(chars, from, k, false) {
                Some(head) => head,
                None => return None,
            };
            let tail = match read_side(chars, k + 2, to, true) {
                Some(tail) => tail,
                None => return None,
            };
            if all.len() > 7 || tail.len() > 7 - all.len() {
                return None;
            }
            let ghost head = all@;
            let missing: usize = 8 - all.len() - tail.len();
            let mut i: usize = 0;
            while i < missing
                invariant
                    i <= missing,
                    all@ =~= head + zeros(i as nat),
                decreases missing - i,
            {
                all.push(0);
                i = i + 1;
            }
            i = 0;
            while i < tail.len()
                invariant
                    i <= tail@.len(),
                    all@ =~= head + zeros(missing as nat) + tail@.take(i as int),
                decreases tail.len() - i,
            {
                all.push(tail[i]);
                i = i + 1;
            }
            assert(tail@.take(i as int) =~= tail@);
            Some(all)
        },
    }
}

// ─── Canonical text ──────────────────────────────────────────────────────────

/// Groups in hexadecimal, separated by colons.
pub open spec fn joined(g: Seq<u16>) -> Seq<char>
    decreases g.len(),
{
    if g.len() == 0 {
        Seq::empty()
    } else if g.len() == 1 {
        hexadecimal(g[0] as nat)
    } else {
        hexadecimal(g[0] as nat) + seq![':'] + joined(g.skip(1))
    }
}

/// How many zero groups stand in a row from `i` on.
pub open spec fn zero_run(g: Seq<u16>, i: int) -> nat
    decreases g.len() - i,
{
    if 0 <= i < g.len() && g[i] == 0 {
        1 + zero_run(g, i + 1)
    } else {
        0
    }
}

/// Where the longest run of zero groups at or after `i` starts, the first one
/// where several are as long.
pub open spec fn longest_run(g: Seq<u16>, i: int) -> int
    decreases g.len() - i,
{
    if i >= g.len() {
        g.len() as int
    } else {
        let later = longest_run(g, i + 1);
        if zero_run(g, i) >= zero_run(g, later) {
            i
        } else {
            later
        }
    }
}

/// Whether the groups are an IPv4 address mapped into IPv6.
pub open spec fn is_mapped(g: Seq<u16>) -> bool {
    g[0] == 0 && g[1] == 0 && g[2] == 0 && g[3] == 0 && g[4] == 0 && g[5] == 0xFFFF
}

/// The canonical text of an IPv6 address: lower case, no leading zeros, the
/// first of the longest runs of two zero groups or more replaced by `::`, and
/// a mapped IPv4 address in dotted decimal.
pub open spec fn ipv6_text(g: Seq<u16>) -> Seq<char> {
    if is_mapped(g) {
        seq![':', ':', 'f', 'f', 'f', 'f', ':'] + dotted(
            (g[6] / 256) as u8,
            (g[6] % 256) as u8,
            (g[7] / 256) as u8,
            (g[7] % 256) as u8,
        )
    } else {
        let start = longest_run(g, 0);
        let n = zero_run(g, start);
        if n > 1 {
            joined(g.take(start)) + seq![':', ':'] + joined(g.skip(start + n))
        } else {
            joined(g)
        }
    }
}

/// The canonical text of an IP literal.
pub open spec fn canonical_ip(s: Seq<char>) -> Seq<char> {
    match ipv6_groups(s) {
        Some(g) => ipv6_text(g),
        None => s,
    }
}

/// A numeral of a group is a group.
proof fn lemma_hex_group(v: u16)
    ensures
        is_group(hexadecimal(v as nat)),
        group_value(hexadecimal(v as nat)) == v,
        !hexadecimal(v as nat).contains(':'),
{
    lemma_numeral(v as nat, 16);
    reveal_with_fuel(power, 5);
    lemma_numeral_len(v as nat, 16, 4, 65536);
    lemma_no_colon_in_digits(hexadecimal(v as nat));
}

proof fn lemma_no_colon_in_digits(s: Seq<char>)
    requires
        all_digits(s, 16),
    ensures
        !s.contains(':'),
{
    assert forall|i: int| 0 <= i < s.len() implies s[i] != ':' by {
        assert(digit_value(s[i], 16) is Some);
    }
}

/// What a gap is: the first `::`.
pub proof fn lemma_gap(s: Seq<char>, from: int)
    requires
        0 <= from,
    ensures
        match gap_from(s, from) {
            Some(k) => from <= k && k + 1 < s.len() && s[k] == ':' && s[k + 1] == ':' && forall|
                j: int,
            |
                from <= j < k ==> !(#[trigger] s[j] == ':' && s[j + 1] == ':'),
            None => forall|j: int|
                from <= j && j + 1 < s.len() ==> !(#[trigger] s[j] == ':' && s[j + 1] == ':'),
        },
    decreases s.len() - from,
{
    if from + 1 < s.len() && !(s[from] == ':' && s[from + 1] == ':') {
        lemma_gap(s, from + 1);
    }
}

/// What joined groups look like: they start and end in a digit, hold no `::`,
/// and read back as the groups they were made from.
proof fn lemma_joined(g: Seq<u16>, v4_ok: bool)
    requires
        g.len() > 0,
    ensures
        joined(g).len() > 0,
        joined(g)[0] != ':',
        joined(g).last() != ':',
        forall|j: int|
            0 <= j && j + 1 < joined(g).len() ==> !(#[trigger] joined(g)[j] == ':' && joined(g)[j
                + 1] == ':'),
        groups(joined(g), v4_ok) == Some(g),
    decreases g.len(),
{
    let s = joined(g);
    let h = hexadecimal(g[0] as nat);
    lemma_hex_group(g[0]);
    assert forall|i: int| 0 <= i < h.len() implies h[i] != ':' by {
        assert(h.contains(h[i]));
    }
    if g.len() == 1 {
        s.index_of_first_ensures(':');
        assert(seq![g[0]] =~= g);
    } else {
        let rest = joined(g.skip(1));
        lemma_joined(g.skip(1), v4_ok);
        let n = h.len() as int;
        assert forall|j: int| 0 <= j < n implies s[j] == h[j] by {}
        assert(s[n] == ':');
        assert forall|j: int| n < j < s.len() implies s[j] == rest[j - n - 1] by {}
        crate::text::lemma_first(s, ':', n);
        assert(s.take(n) =~= h);
        assert(s.skip(n + 1) =~= rest);
        assert(seq![g[0]] + g.skip(1) =~= g);
        assert forall|j: int| 0 <= j && j + 1 < s.len() implies !(#[trigger] s[j] == ':' && s[j + 1]
            == ':') by {
            if j < n {
            } else if j == n {
                assert(s[j + 1] == rest[0]);
            } else {
                assert(s[j] == rest[j - n - 1]);
                assert(s[j + 1] == rest[j - n]);
            }
        }
    }
}

/// A run of zeros is one.
pub proof fn lemma_zero_run(g: Seq<u16>, i: int)
    requires
        0 <= i <= g.len(),
    ensures
        i + zero_run(g, i) <= g.len(),
        forall|j: int| i <= j < i + zero_run(g, i) ==> g[j] == 0,
    decreases g.len() - i,
{
    if i < g.len() && g[i] == 0 {
        lemma_zero_run(g, i + 1);
    }
}

proof fn lemma_longest_run(g: Seq<u16>, i: int)
    requires
        0 <= i <= g.len(),
    ensures
        i <= longest_run(g, i) <= g.len(),
    decreases g.len() - i,
{
    if i < g.len() {
        lemma_longest_run(g, i + 1);
    }
}

/// Two numerals of octets at the same place are the same octet.
proof fn lemma_octet_unique(s: Seq<char>, from: int, to: int, v: u8, e: int, w: u8, f: int)
    requires
        0 <= from <= to <= s.len(),
        octet_at(s, from, to, v, e),
        octet_at(s, from, to, w, f),
    ensures
        v == w,
        e == f,
{
    lemma_octet(v);
    lemma_octet(w);
    let x = s.subrange(from, e);
    let y = s.subrange(from, f);
    if e < f {
        assert(y[e - from] == s[e]);
        assert(digit_value(y[e - from], 10) is Some);
    } else if f < e {
        assert(x[f - from] == s[f]);
        assert(digit_value(x[f - from], 10) is Some);
    }
}

/// A dotted-decimal text denotes one address.
pub proof fn lemma_dotted_unique(a: u8, b: u8, c: u8, d: u8, w: u8, x: u8, y: u8, z: u8)
    requires
        dotted(a, b, c, d) == dotted(w, x, y, z),
    ensures
        a == w,
        b == x,
        c == y,
        d == z,
{
    let s = dotted(a, b, c, d);
    let to = s.len() as int;
    assert(s.subrange(0, to) =~= s);
    lemma_dotted_octets(s, 0, to, a, b, c, d);
    lemma_dotted_octets(s, 0, to, w, x, y, z);
    let p = decimal(a as nat).len() as int;
    let q = p + 1 + decimal(b as nat).len();
    let r = q + 1 + decimal(c as nat).len();
    let p2 = decimal(w as nat).len() as int;
    let q2 = p2 + 1 + decimal(x as nat).len();
    let r2 = q2 + 1 + decimal(y as nat).len();
    lemma_octet_unique(s, 0, to, a, p, w, p2);
    lemma_octet_unique(s, p + 1, to, b, q, x, q2);
    lemma_octet_unique(s, q + 1, to, c, r, y, r2);
    lemma_octet_unique(s, r + 1, to, d, to, z, to);
}

/// The characters a dotted-decimal text is made of.
pub proof fn lemma_dotted_chars(a: u8, b: u8, c: u8, d: u8)
    ensures
        dotted(a, b, c, d).len() > 0,
        forall|i: int|
            0 <= i < dotted(a, b, c, d).len() ==> #[trigger] dotted(a, b, c, d)[i] == '.'
                || digit_value(dotted(a, b, c, d)[i], 10) is Some,
        dotted(a, b, c, d).contains('.'),
{
    lemma_octet(a);
    lemma_octet(b);
    lemma_octet(c);
    lemma_octet(d);
    let (ta, tb, tc, td) = (
        decimal(a as nat),
        decimal(b as nat),
        decimal(c as nat),
        decimal(d as nat),
    );
    let s = dotted(a, b, c, d);
    let p = ta.len();
    let q = p + 1 + tb.len();
    let r = q + 1 + tc.len();
    assert(s[p as int] == '.');
    assert forall|i: int| 0 <= i < s.len() implies #[trigger] s[i] == '.' || digit_value(s[i], 10)
        is Some by {
        if i < p {
            assert(s[i] == ta[i]);
        } else if p < i < q {
            assert(s[i] == tb[i - p - 1]);
        } else if q < i < r {
            assert(s[i] == tc[i - q - 1]);
        } else if r < i {
            assert(s[i] == td[i - r - 1]);
        }
    }
}

/// The canonical text of eight groups is a literal that denotes them.
pub proof fn lemma_ipv6_text(g: Seq<u16>)
    requires
        g.len() == 8,
    ensures
        ipv6_groups(ipv6_text(g)) == Some(g),
{
    let s = ipv6_text(g);
    if is_mapped(g) {
        lemma_mapped_text(g);
    } else {
        let start = longest_run(g, 0);
        let n = zero_run(g, start);
        lemma_longest_run(g, 0);
        lemma_zero_run(g, start);
        if n > 1 {
            let a = joined(g.take(start));
            let b = joined(g.skip(start + n));
            let k = a.len() as int;
            assert(s[k] == ':' && s[k + 1] == ':');
            if start > 0 {
                lemma_joined(g.take(start), false);
            }
            if start + n < 8 {
                lemma_joined(g.skip(start + n), true);
            }
            assert forall|j: int| 0 <= j < k implies !(#[trigger] s[j] == ':' && s[j + 1] == ':') by {
                assert(s[j] == a[j]);
                if j + 1 < k {
                    assert(s[j + 1] == a[j + 1]);
                } else {
                    assert(a[j] == a.last());
                }
            }
            lemma_gap(s, 0);
            assert(gap_from(s, 0) == Some(k));
            assert(s.take(k) =~= a);
            assert(s.skip(k + 2) =~= b);
            assert(side_groups(a, false) == Some(g.take(start))) by {
                if start == 0 {
                    assert(g.take(0) =~= Seq::<u16>::empty());
                }
            }
            assert(side_groups(b, true) == Some(g.skip(start + n))) by {
                if start + n == 8 {
                    assert(g.skip(8) =~= Seq::<u16>::empty());
                }
            }
            assert(g.take(start) + zeros(n) + g.skip(start + n) =~= g);
        } else {
            lemma_joined(g, true);
            lemma_gap(s, 0);
        }
    }
}

/// A mapped IPv4 address reads back.
proof fn lemma_mapped_text(g: Seq<u16>)
    requires
        g.len() == 8,
        is_mapped(g),
    ensures
        ipv6_groups(ipv6_text(g)) == Some(g),
{
    let s = ipv6_text(g);
    let (a, b, c, d) = (
        (g[6] / 256) as u8,
        (g[6] % 256) as u8,
        (g[7] / 256) as u8,
        (g[7] % 256) as u8,
    );
    let v4 = dotted(a, b, c, d);
    let tail = seq!['f', 'f', 'f', 'f', ':'] + v4;
    assert(s[0] == ':' && s[1] == ':');
    assert(gap_from(s, 0) == Some(0int));
    assert(s.take(0) =~= Seq::<char>::empty());
    assert(s.skip(2) =~= tail);
    assert forall|j: int| 0 <= j < 4 implies tail[j] != ':' by {}
    assert(tail[4] == ':');
    crate::text::lemma_first(tail, ':', 4);
    let f = seq!['f', 'f', 'f', 'f'];
    assert(tail.take(4) =~= f);
    assert(tail.skip(5) =~= v4);
    assert(is_group(f) && group_value(f) == 0xFFFF) by {
        reveal_with_fuel(digits_value, 5);
        assert(f.drop_last() =~= seq!['f', 'f', 'f']);
        assert(f.drop_last().drop_last() =~= seq!['f', 'f']);
        assert(f.drop_last().drop_last().drop_last() =~= seq!['f']);
        assert(f.drop_last().drop_last().drop_last().drop_last() =~= Seq::<char>::empty());
        assert(digit_value('f', 16) == Some(15nat));
    }
    lemma_dotted_chars(a, b, c, d);
    assert(!v4.contains(':')) by {
        assert forall|i: int| 0 <= i < v4.len() implies v4[i] != ':' by {}
    }
    v4.index_of_first_ensures(':');
    assert(!is_group(v4)) by {
        let i = choose|i: int| 0 <= i < v4.len() && v4[i] == '.';
        assert(digit_value(v4[i], 16) is None);
    }
    assert(is_ipv4(v4));
    let (w, x, y, z) = choose|w: u8, x: u8, y: u8, z: u8| v4 == #[trigger] dotted(w, x, y, z);
    lemma_dotted_unique(a, b, c, d, w, x, y, z);
    assert(g[6] == a * 256 + b && g[7] == c * 256 + d);
    assert(ipv4_groups(v4) == Some(seq![g[6], g[7]]));
    assert(groups(v4, true) == Some(seq![g[6], g[7]]));
    let t = seq![0xFFFFu16] + seq![g[6], g[7]];
    assert(groups(tail, true) == Some(t));
    assert(Seq::<u16>::empty() + zeros(5) + t =~= g);
}

/// The characters an IP literal is made of.
pub open spec fn is_ip_char(c: char) -> bool {
    c == ':' || c == '.' || digit_value(c, 16) is Some
}

/// Whether every character may stand in an IP literal.
pub open spec fn all_ip_chars(s: Seq<char>) -> bool {
    forall|i: int| 0 <= i < s.len() ==> is_ip_char(#[trigger] s[i])
}

/// What an IPv4 literal is made of.
pub proof fn lemma_ipv4_chars(s: Seq<char>)
    requires
        is_ipv4(s),
    ensures
        s.len() > 0,
        all_ip_chars(s),
        !s.contains(':'),
{
    let (a, b, c, d) = choose|a: u8, b: u8, c: u8, d: u8| s == #[trigger] dotted(a, b, c, d);
    lemma_dotted_chars(a, b, c, d);
    assert forall|i: int| 0 <= i < s.len() implies is_ip_char(#[trigger] s[i]) && s[i] != ':' by {}
}

/// What a list of groups is made of; one of more than two has a colon.
proof fn lemma_groups_chars(s: Seq<char>, v4_ok: bool)
    requires
        groups(s, v4_ok) is Some,
    ensures
        s.len() > 0,
        all_ip_chars(s),
        groups(s, v4_ok).unwrap().len() > 2 ==> s.contains(':'),
    decreases s.len(),
{
    s.index_of_first_ensures(':');
    match s.index_of_first(':') {
        Some(i) => {
            let rest = s.skip(i + 1);
            let first = s.take(i);
            lemma_groups_chars(rest, v4_ok);
            assert forall|j: int| 0 <= j < s.len() implies is_ip_char(#[trigger] s[j]) by {
                if j < i {
                    assert(s[j] == first[j]);
                    assert(digit_value(first[j], 16) is Some);
                } else if j > i {
                    assert(s[j] == rest[j - i - 1]);
                }
            }
        },
        None => {
            if is_group(s) {
                assert forall|j: int| 0 <= j < s.len() implies is_ip_char(#[trigger] s[j]) by {
                    assert(digit_value(s[j], 16) is Some);
                }
            } else {
                lemma_ipv4_chars(s);
            }
        },
    }
}

/// An IPv6 literal has two colons at least, and none but its own characters.
pub proof fn lemma_ipv6_chars(s: Seq<char>)
    requires
        is_ipv6(s),
    ensures
        s.len() > 0,
        all_ip_chars(s),
        exists|i: int, j: int| 0 <= i < j < s.len() && s[i] == ':' && s[j] == ':',
{
    lemma_gap(s, 0);
    match gap_from(s, 0) {
        None => {
            lemma_groups_chars(s, true);
            s.index_of_first_ensures(':');
            let i = s.index_of_first(':').unwrap();
            let rest = s.skip(i + 1);
            lemma_groups_chars(rest, true);
            let j = choose|j: int| 0 <= j < rest.len() && rest[j] == ':';
            assert(s[i + 1 + j] == ':');
            assert(s[i] == ':');
        },
        Some(k) => {
            let head = s.take(k);
            let tail = s.skip(k + 2);
            if head.len() > 0 {
                lemma_groups_chars(head, false);
            }
            if tail.len() > 0 {
                lemma_groups_chars(tail, true);
            }
            assert forall|j: int| 0 <= j < s.len() implies is_ip_char(#[trigger] s[j]) by {
                if j < k {
                    assert(s[j] == head[j]);
                } else if j > k + 1 {
                    assert(s[j] == tail[j - k - 2]);
                }
            }
            assert(s[k] == ':' && s[k + 1] == ':');
        },
    }
}

/// A text is not an IPv4 and an IPv6 literal at once.
pub proof fn lemma_ip_kinds_differ(s: Seq<char>)
    ensures
        !(is_ipv4(s) && is_ipv6(s)),
{
    if is_ipv4(s) && is_ipv6(s) {
        lemma_ipv4_chars(s);
        lemma_ipv6_chars(s);
        let (i, j) = choose|i: int, j: int| 0 <= i < j < s.len() && s[i] == ':' && s[j] == ':';
        assert(s.contains(s[i]));
    }
}

/// Appends groups in hexadecimal, separated by colons.
fn push_joined(out: &mut String, g: &Vec<u16>, from: usize, to: usize)
    requires
        from <= to <= g@.len(),
    ensures
        final(out)@ == old(out)@ + joined(g@.subrange(from as int, to as int)),
    decreases to - from,
{
    let ghost part = g@.subrange(from as int, to as int);
    if from == to {
        assert(out@ =~= old(out)@ + joined(part));
        return;
    }
    push_numeral(out, g[from] as u64, 16);
    if to - from > 1 {
        out.push(':');
        push_joined(out, g, from + 1, to);
        assert(part.skip(1) =~= g@.subrange(from + 1, to as int));
    }
    assert(part[0] == g@[from as int]);
    assert(out@ =~= old(out)@ + joined(part));
}

/// How many zero groups stand in a row from `i` on.
fn count_zeros(g: &Vec<u16>, i: usize) -> (n: usize)
    requires
        i <= g@.len(),
    ensures
        n == zero_run(g@, i as int),
        i + n <= g@.len(),
    decreases g@.len() - i,
{
    if i < g.len() && g[i] == 0 {
        1 + count_zeros(g, i + 1)
    } else {
        0
    }
}

/// Where the longest run of zero groups starts, and how long it is.
fn find_longest_run(g: &Vec<u16>, i: usize) -> (res: (usize, usize))
    requires
        i <= g@.len(),
    ensures
        res.0 == longest_run(g@, i as int),
        res.1 == zero_run(g@, res.0 as int),
        res.0 + res.1 <= g@.len(),
    decreases g@.len() - i,
{
    if i >= g.len() {
        (g.len(), 0)
    } else {
        let (later, length) = find_longest_run(g, i + 1);
        let here: usize = count_zeros(g, i);
        if here >= length {
            (i, here)
        } else {
            (later, length)
        }
    }
}

/// Appends the dotted-decimal text of four octets.
fn push_dotted(out: &mut String, a: u8, b: u8, c: u8, d: u8)
    ensures
        final(out)@ == old(out)@ + dotted(a, b, c, d),
{
    push_numeral(out, a as u64, 10);
    out.push('.');
    push_numeral(out, b as u64, 10);
    out.push('.');
    push_numeral(out, c as u64, 10);
    out.push('.');
    push_numeral(out, d as u64, 10);
    assert(out@ =~= old(out)@ + dotted(a, b, c, d));
}

/// The canonical text of an IPv6 address.
pub fn ipv6_string(g: &Vec<u16>) -> (res: String)
    requires
        g@.len() == 8,
    ensures
        res@ == ipv6_text(g@),
{
    let mut out = String::new();
    if g[0] == 0 && g[1] == 0 && g[2] == 0 && g[3] == 0 && g[4] == 0 && g[5] == 0xFFFF {
        out.push(':');
        out.push(':');
        out.push('f');
        out.push('f');
        out.push('f');
        out.push('f');
        out.push(':');
        assert(out@ =~= seq![':', ':', 'f', 'f', 'f', 'f', ':']);
        push_dotted(
            &mut out,
            (g[6] / 256) as u8,
            (g[6] % 256) as u8,
            (g[7] / 256) as u8,
            (g[7] % 256) as u8,
        );
        return out;
    }
    let (start, n) = find_longest_run(g, 0);
    if n > 1 {
        push_joined(&mut out, g, 0, start);
        let ghost head = out@;
        out.push(':');
        out.push(':');
        push_joined(&mut out, g, start + n, 8);
        assert(g@.subrange(0, start as int) =~= g@.take(start as int));
        assert(g@.subrange(start + n, 8) =~= g@.skip(start + n));
        assert(out@ =~= ipv6_text(g@));
    } else {
        push_joined(&mut out, g, 0, 8);
        assert(g@.subrange(0, 8) =~= g@);
        assert(out@ =~= ipv6_text(g@));
    }
    out
}

/// Whether `chars[from..to]` is an IPv6 literal.
pub fn ipv6_literal(chars: &Vec<char>, from: usize, to: usize) -> (res: bool)
    requires
        from <= to <= chars@.len(),
    ensures
        res == is_ipv6(chars@.subrange(from as int, to as int)),
{
    read_ipv6(chars, from, to).is_some()
}

/// The canonical text of `chars[from..to]`, if it is an IP literal.
pub fn canonical_literal(chars: &Vec<char>, from: usize, to: usize) -> (res: Option<String>)
    requires
        from <= to <= chars@.len(),
    ensures
        match res {
            Some(text) => is_ip(chars@.subrange(from as int, to as int)) && text@ == canonical_ip(
                chars@.subrange(from as int, to as int),
            ),
            None => !is_ip(chars@.subrange(from as int, to as int)),
        },
{
    proof {
        lemma_ip_kinds_differ(chars@.subrange(from as int, to as int));
    }
    if read_ipv4(chars, from, to).is_some() {
        return Some(crate::text::string_of(chars, from, to));
    }
    match read_ipv6(chars, from, to) {
        Some(g) => Some(ipv6_string(&g)),
        None => None,
    }
}

} // verus!
