//! What IP literals look like, and what their canonical text is.

use crate::ip::{
    canonical_ip, dotted, gap_from, group_value, groups, ipv4_groups, ipv6_groups, ipv6_text, is_group, is_ip, is_ipv4,
    is_mapped, joined, lemma_dotted_chars, lemma_dotted_unique, lemma_gap,
    lemma_ip_kinds_differ, lemma_octet,
    lemma_zero_run, longest_run, side_groups, zero_run, zeros,
};
use crate::text::{
    all_digits, decimal, digit_value, digits_value, hexadecimal, lemma_decimal_unique,
    lemma_digits_value_bound, lemma_first, power,
};
use vstd::prelude::*;

verus! {

// ─── IPv4 ────────────────────────────────────────────────────────────────────

/// What a text of decimal digits is worth.
pub open spec fn dec_worth(s: Seq<char>) -> int
    decreases s.len(),
{
    if s.len() == 0 {
        0
    } else {
        10 * dec_worth(s.drop_last()) + (s.last() as int - '0' as int)
    }
}

/// Whether a text is an octet in decimal: digits only, worth at most 255, and
/// without a zero in front of another digit.
pub open spec fn is_octet(s: Seq<char>) -> bool {
    &&& 1 <= s.len()
    &&& forall|i: int| 0 <= i < s.len() ==> '0' <= #[trigger] s[i] <= '9'
    &&& s.len() > 1 ==> s[0] != '0'
    &&& dec_worth(s) <= 255
}

/// The worth of decimal digits.
pub proof fn lemma_dec_worth(s: Seq<char>)
    requires
        forall|i: int| 0 <= i < s.len() ==> '0' <= #[trigger] s[i] <= '9',
    ensures
        all_digits(s, 10),
        digits_value(s, 10) == dec_worth(s),
    decreases s.len(),
{
    assert forall|i: int| 0 <= i < s.len() implies #[trigger] digit_value(s[i], 10) is Some by {}
    if s.len() > 0 {
        let less = s.drop_last();
        assert forall|i: int| 0 <= i < less.len() implies '0' <= #[trigger] less[i] <= '9' by {
            assert(less[i] == s[i]);
        }
        lemma_dec_worth(less);
        assert('0' <= s[s.len() - 1] <= '9');
    }
}

/// An octet's text is its numeral.
proof fn lemma_is_octet(s: Seq<char>)
    requires
        is_octet(s),
    ensures
        0 <= dec_worth(s) <= 255,
        s == decimal((dec_worth(s) as u8) as nat),
{
    lemma_dec_worth(s);
    lemma_decimal_unique(s);
}

/// A numeral is an octet's text.
proof fn lemma_octet_text(v: u8)
    ensures
        is_octet(decimal(v as nat)),
{
    let s = decimal(v as nat);
    lemma_octet(v);
    assert forall|i: int| 0 <= i < s.len() implies '0' <= #[trigger] s[i] <= '9' by {
        assert(digit_value(s[i], 10) is Some);
    }
    lemma_dec_worth(s);
}

/// **An IPv4 literal is four octets in decimal with dots between them.**
pub proof fn law_ipv4_is_four_octets(s: Seq<char>)
    ensures
        is_ipv4(s) <==> exists|a: Seq<char>, b: Seq<char>, c: Seq<char>, d: Seq<char>| #[trigger]
            is_quad(s, a, b, c, d),
{
    if is_ipv4(s) {
        let (a, b, c, d) = choose|a: u8, b: u8, c: u8, d: u8| s == #[trigger] dotted(a, b, c, d);
        lemma_octet_text(a);
        lemma_octet_text(b);
        lemma_octet_text(c);
        lemma_octet_text(d);
        assert(is_quad(
            s,
            decimal(a as nat),
            decimal(b as nat),
            decimal(c as nat),
            decimal(d as nat),
        ));
    }
    if exists|a: Seq<char>, b: Seq<char>, c: Seq<char>, d: Seq<char>| #[trigger]
        is_quad(s, a, b, c, d) {
        let (a, b, c, d) = choose|a: Seq<char>, b: Seq<char>, c: Seq<char>, d: Seq<char>| #[trigger]
            is_quad(s, a, b, c, d);
        lemma_is_octet(a);
        lemma_is_octet(b);
        lemma_is_octet(c);
        lemma_is_octet(d);
        assert(s == dotted(
            dec_worth(a) as u8,
            dec_worth(b) as u8,
            dec_worth(c) as u8,
            dec_worth(d) as u8,
        ));
    }
}

/// Whether a text is four octets with dots between them.
pub open spec fn is_quad(
    s: Seq<char>,
    a: Seq<char>,
    b: Seq<char>,
    c: Seq<char>,
    d: Seq<char>,
) -> bool {
    &&& is_octet(a) && is_octet(b) && is_octet(c) && is_octet(d)
    &&& s == a + seq!['.'] + b + seq!['.'] + c + seq!['.'] + d
}

// ─── IPv6 ────────────────────────────────────────────────────────────────────

/// What a hexadecimal digit is worth, in either case.
pub open spec fn hexit(c: char) -> Option<int> {
    if '0' <= c <= '9' {
        Some(c as int - '0' as int)
    } else if 'a' <= c <= 'f' {
        Some(c as int - 'a' as int + 10)
    } else if 'A' <= c <= 'F' {
        Some(c as int - 'A' as int + 10)
    } else {
        None
    }
}

/// What a text of hexadecimal digits is worth.
pub open spec fn hex_worth(s: Seq<char>) -> int
    decreases s.len(),
{
    if s.len() == 0 {
        0
    } else {
        16 * hex_worth(s.drop_last()) + hexit(s.last()).unwrap()
    }
}

/// Whether a text is one to four hexadecimal digits.
pub open spec fn is_hextet(s: Seq<char>) -> bool {
    &&& 1 <= s.len() <= 4
    &&& forall|i: int| 0 <= i < s.len() ==> hexit(#[trigger] s[i]) is Some
}

/// **A group is one to four hexadecimal digits**, worth what they say.
pub proof fn law_group_is_four_digits_at_most(s: Seq<char>)
    ensures
        is_group(s) <==> is_hextet(s),
        is_group(s) ==> group_value(s) == hex_worth(s) && !s.contains(':'),
{
    if is_group(s) {
        assert forall|i: int| 0 <= i < s.len() implies hexit(#[trigger] s[i]) is Some by {
            assert(digit_value(s[i], 16) is Some);
        }
    }
    if is_hextet(s) {
        assert forall|i: int| 0 <= i < s.len() implies #[trigger] digit_value(s[i], 16) is Some by {
            assert(hexit(s[i]) is Some);
        }
        lemma_hex_worth(s);
        lemma_digits_value_bound(s, 16);
        reveal_with_fuel(power, 5);
        assert(power(16, s.len()) <= 0x1_0000);
        assert forall|i: int| 0 <= i < s.len() implies s[i] != ':' by {
            assert(hexit(s[i]) is Some);
        }
    }
}

/// The worth of hexadecimal digits.
proof fn lemma_hex_worth(s: Seq<char>)
    requires
        forall|i: int| 0 <= i < s.len() ==> hexit(#[trigger] s[i]) is Some,
    ensures
        digits_value(s, 16) == hex_worth(s),
    decreases s.len(),
{
    if s.len() > 0 {
        let less = s.drop_last();
        assert forall|i: int| 0 <= i < less.len() implies hexit(#[trigger] less[i]) is Some by {
            assert(less[i] == s[i]);
        }
        lemma_hex_worth(less);
        assert(hexit(s[s.len() - 1]) is Some);
    }
}

/// Texts with colons between them.
pub open spec fn with_colons(items: Seq<Seq<char>>) -> Seq<char>
    decreases items.len(),
{
    if items.len() == 0 {
        Seq::empty()
    } else if items.len() == 1 {
        items[0]
    } else {
        items[0] + seq![':'] + with_colons(items.skip(1))
    }
}

/// Whether the items are groups, where `v4_ok` says so with an IPv4 literal for
/// the last.
pub open spec fn are_groups(items: Seq<Seq<char>>, v4_ok: bool) -> bool {
    forall|i: int|
        0 <= i < items.len() ==> is_hextet(#[trigger] items[i]) || (v4_ok && i == items.len() - 1
            && is_ipv4(items[i]))
}

/// What the items are worth: a group its value, an IPv4 literal two groups of two
/// octets each.
pub open spec fn worth(items: Seq<Seq<char>>) -> Seq<u16>
    decreases items.len(),
{
    if items.len() == 0 {
        Seq::empty()
    } else {
        item_worth(items[0]) + worth(items.skip(1))
    }
}

/// What one item is worth.
pub open spec fn item_worth(item: Seq<char>) -> Seq<u16> {
    if is_hextet(item) {
        seq![hex_worth(item) as u16]
    } else {
        let (a, b, c, d) = choose|a: u8, b: u8, c: u8, d: u8|
            item == #[trigger] dotted(a, b, c, d);
        seq![(a * 256 + b) as u16, (c * 256 + d) as u16]
    }
}

/// Whether a text is items with colons between them, worth eight groups.
pub open spec fn is_written_out(s: Seq<char>, items: Seq<Seq<char>>, g: Seq<u16>) -> bool {
    &&& items.len() > 0
    &&& are_groups(items, true)
    &&& s == with_colons(items)
    &&& g == worth(items)
    &&& g.len() == 8
}

/// Whether a text is items on either side of a `::` that stands for as many zero
/// groups as are missing from eight, one at least.
pub open spec fn is_shortened(
    s: Seq<char>,
    head: Seq<Seq<char>>,
    tail: Seq<Seq<char>>,
    g: Seq<u16>,
) -> bool {
    &&& are_groups(head, false)
    &&& are_groups(tail, true)
    &&& s == with_colons(head) + seq![':', ':'] + with_colons(tail)
    &&& worth(head).len() + worth(tail).len() <= 7
    &&& g == worth(head) + Seq::new(
        (8 - worth(head).len() - worth(tail).len()) as nat,
        |i: int| 0u16,
    ) + worth(tail)
}

/// **An IPv6 literal is eight groups with colons between them**, the last two
/// perhaps an IPv4 literal, or fewer around one `::` that stands for the zeros
/// missing; and these are the groups it denotes.
pub proof fn law_ipv6_is_eight_groups(s: Seq<char>, g: Seq<u16>)
    ensures
        ipv6_groups(s) == Some(g) <==> (exists|items: Seq<Seq<char>>| #[trigger]
            is_written_out(s, items, g)) || (exists|head: Seq<Seq<char>>, tail: Seq<Seq<char>>|
         #[trigger]
            is_shortened(s, head, tail, g)),
{
    if ipv6_groups(s) == Some(g) {
        lemma_gap(s, 0);
        match gap_from(s, 0) {
            None => {
                let items = lemma_split(s, true);
                assert(is_written_out(s, items, g));
            },
            Some(k) => {
                let (a, b) = (s.take(k), s.skip(k + 2));
                let head = if a.len() == 0 {
                    Seq::<Seq<char>>::empty()
                } else {
                    lemma_split(a, false)
                };
                let tail = if b.len() == 0 {
                    Seq::<Seq<char>>::empty()
                } else {
                    lemma_split(b, true)
                };
                assert(with_colons(head) =~= a && with_colons(tail) =~= b);
                assert(s =~= a + seq![':', ':'] + b);
                assert(g =~= worth(head) + Seq::new(
                    (8 - worth(head).len() - worth(tail).len()) as nat,
                    |i: int| 0u16,
                ) + worth(tail));
                assert(is_shortened(s, head, tail, g));
            },
        }
    }
    if exists|items: Seq<Seq<char>>| #[trigger] is_written_out(s, items, g) {
        let items = choose|items: Seq<Seq<char>>| #[trigger] is_written_out(s, items, g);
        lemma_items(items, true);
        lemma_gap(s, 0);
        if let Some(k) = gap_from(s, 0) {
            assert(s[k] == ':' && s[k + 1] == ':');
        }
    }
    if exists|head: Seq<Seq<char>>, tail: Seq<Seq<char>>| #[trigger]
        is_shortened(s, head, tail, g) {
        let (head, tail) = choose|head: Seq<Seq<char>>, tail: Seq<Seq<char>>| #[trigger]
            is_shortened(s, head, tail, g);
        lemma_shortened(s, head, tail, g);
    }
}

/// A text with a `::` denotes what stands around it.
proof fn lemma_shortened(
    s: Seq<char>,
    head: Seq<Seq<char>>,
    tail: Seq<Seq<char>>,
    g: Seq<u16>,
)
    requires
        is_shortened(s, head, tail, g),
    ensures
        ipv6_groups(s) == Some(g),
{
    let a = with_colons(head);
    let b = with_colons(tail);
    let k = a.len() as int;
    if head.len() > 0 {
        lemma_items(head, false);
    }
    if tail.len() > 0 {
        lemma_items(tail, true);
    }
    assert(s[k] == ':' && s[k + 1] == ':');
    assert forall|j: int| 0 <= j < k implies !(#[trigger] s[j] == ':' && s[j + 1] == ':') by {
        assert(s[j] == a[j]);
        if j + 1 < k {
            assert(s[j + 1] == a[j + 1]);
        } else {
            assert(a[j] == a.last());
        }
    }
    lemma_gap(s, 0);
    assert(gap_from(s, 0) == Some(k));
    assert(s.take(k) =~= a);
    assert(s.skip(k + 2) =~= b);
    assert(side_groups(a, false) == Some(worth(head)));
    assert(side_groups(b, true) == Some(worth(tail)));
    let n = (8 - worth(head).len() - worth(tail).len()) as nat;
    assert(zeros(n) =~= Seq::new(n, |i: int| 0u16));
}

/// Items with colons between them begin and end in none, hold no `::`, and read
/// back as what they are worth.
proof fn lemma_items(items: Seq<Seq<char>>, v4_ok: bool)
    requires
        items.len() > 0,
        are_groups(items, v4_ok),
    ensures
        with_colons(items).len() > 0,
        with_colons(items)[0] != ':',
        with_colons(items).last() != ':',
        forall|j: int|
            0 <= j && j + 1 < with_colons(items).len() ==> !(#[trigger] with_colons(items)[j] == ':'
                && with_colons(items)[j + 1] == ':'),
        groups(with_colons(items), v4_ok) == Some(worth(items)),
    decreases items.len(),
{
    let s = with_colons(items);
    let h = items[0];
    law_group_is_four_digits_at_most(h);
    if is_ipv4(h) {
        lemma_ipv4_no_colon(h);
    }
    assert forall|i: int| 0 <= i < h.len() implies h[i] != ':' by {
        assert(h.contains(h[i]));
    }
    if items.len() == 1 {
        s.index_of_first_ensures(':');
        assert(items.skip(1) =~= Seq::<Seq<char>>::empty());
        assert(worth(items.skip(1)) =~= Seq::<u16>::empty());
        assert(worth(items) =~= item_worth(h));
    } else {
        let tail = items.skip(1);
        let rest = with_colons(tail);
        assert forall|i: int| 0 <= i < tail.len() implies is_hextet(#[trigger] tail[i]) || (v4_ok
            && i == tail.len() - 1 && is_ipv4(tail[i])) by {
            assert(tail[i] == items[i + 1]);
        }
        lemma_items(tail, v4_ok);
        let n = h.len() as int;
        assert forall|j: int| 0 <= j < n implies s[j] == h[j] by {}
        assert(s[n] == ':');
        assert forall|j: int| n < j < s.len() implies s[j] == rest[j - n - 1] by {}
        lemma_first(s, ':', n);
        assert(s.take(n) =~= h);
        assert(s.skip(n + 1) =~= rest);
        assert forall|j: int| 0 <= j && j + 1 < s.len() implies !(#[trigger] s[j] == ':' && s[j + 1]
            == ':') by {
            if j < n {
            } else if j == n {
                assert(s[j + 1] == rest[0]);
            } else {
                assert(s[j] == rest[j - n - 1]);
                assert(s[j + 1] == rest[j - n]);
            }
        }
    }
}

/// An IPv4 literal is not empty and holds no colon.
proof fn lemma_ipv4_no_colon(s: Seq<char>)
    requires
        is_ipv4(s),
    ensures
        s.len() > 0,
        !s.contains(':'),
{
    let (a, b, c, d) = choose|a: u8, b: u8, c: u8, d: u8| s == #[trigger] dotted(a, b, c, d);
    lemma_dotted_chars(a, b, c, d);
    assert forall|i: int| 0 <= i < s.len() implies s[i] != ':' by {
        assert(s[i] == '.' || digit_value(s[i], 10) is Some);
    }
}

/// A list of groups is items with colons between them.
proof fn lemma_split(s: Seq<char>, v4_ok: bool) -> (items: Seq<Seq<char>>)
    requires
        groups(s, v4_ok) is Some,
    ensures
        items.len() > 0,
        are_groups(items, v4_ok),
        s == with_colons(items),
        groups(s, v4_ok) == Some(worth(items)),
    decreases s.len(),
{
    s.index_of_first_ensures(':');
    match s.index_of_first(':') {
        Some(i) => {
            let first = s.take(i);
            let rest = s.skip(i + 1);
            let tail = lemma_split(rest, v4_ok);
            let items = seq![first] + tail;
            law_group_is_four_digits_at_most(first);
            assert(items.skip(1) =~= tail);
            assert forall|k: int| 0 <= k < items.len() implies is_hextet(#[trigger] items[k]) || (
            v4_ok && k == items.len() - 1 && is_ipv4(items[k])) by {
                if k > 0 {
                    assert(items[k] == tail[k - 1]);
                }
            }
            assert(s =~= first + seq![':'] + rest);
            assert(worth(items) == item_worth(first) + worth(tail));
            items
        },
        None => {
            let items = seq![s];
            law_group_is_four_digits_at_most(s);
            assert(items.skip(1) =~= Seq::<Seq<char>>::empty());
            assert(worth(items.skip(1)) =~= Seq::<u16>::empty());
            assert(worth(items) =~= item_worth(s));
            items
        },
    }
}

/// **An embedded IPv4 literal stands for two groups**, each of two octets.
pub proof fn law_embedded_ipv4_is_two_groups(a: u8, b: u8, c: u8, d: u8)
    ensures
        ipv4_groups(dotted(a, b, c, d)) == Some(
            seq![(a * 256 + b) as u16, (c * 256 + d) as u16],
        ),
{
    let s = dotted(a, b, c, d);
    let (w, x, y, z) = choose|w: u8, x: u8, y: u8, z: u8| s == #[trigger] dotted(w, x, y, z);
    lemma_dotted_unique(a, b, c, d, w, x, y, z);
}

// ─── Canonical text ──────────────────────────────────────────────────────────

/// Whether the `n` groups from `start` on are zeros.
pub open spec fn is_zeros(g: Seq<u16>, start: int, n: int) -> bool {
    &&& 0 <= start && 0 <= n && start + n <= g.len()
    &&& forall|i: int| start <= i < start + n ==> #[trigger] g[i] == 0
}

/// Whether a run of zero groups is the longest, and the first where several are as
/// long.
pub open spec fn is_longest(g: Seq<u16>, start: int, n: int) -> bool {
    &&& is_zeros(g, start, n)
    &&& forall|other: int, m: int| #[trigger]
        is_zeros(g, other, m) ==> m <= n && (m == n && n > 0 ==> start <= other)
}

/// Groups as shortest numerals in hexadecimal, with colons between them.
pub open spec fn written(g: Seq<u16>) -> Seq<Seq<char>> {
    Seq::new(g.len(), |i: int| hexadecimal(g[i] as nat))
}

/// **The canonical text of an IPv6 address** has its groups as shortest numerals,
/// and `::` in place of the longest run of zeros, the first of several, if that is
/// of two groups or more. An IPv4 address mapped into IPv6 keeps its own form.
pub proof fn law_canonical_text(g: Seq<u16>, start: int, n: int)
    requires
        g.len() == 8,
        is_longest(g, start, n),
    ensures
        is_mapped(g) <==> is_zeros(g, 0, 5) && g[5] == 0xFFFF,
        is_mapped(g) ==> ipv6_text(g) == seq![':', ':', 'f', 'f', 'f', 'f', ':'] + dotted(
            (g[6] / 256) as u8,
            (g[6] % 256) as u8,
            (g[7] / 256) as u8,
            (g[7] % 256) as u8,
        ),
        !is_mapped(g) && n > 1 ==> ipv6_text(g) == with_colons(written(g.take(start))) + seq![
            ':',
            ':',
        ] + with_colons(written(g.skip(start + n))),
        !is_mapped(g) && n <= 1 ==> ipv6_text(g) == with_colons(written(g)),
{
    if is_mapped(g) {
        assert(is_zeros(g, 0, 5));
    }
    if is_zeros(g, 0, 5) {
        assert(g[0] == 0 && g[1] == 0 && g[2] == 0 && g[3] == 0 && g[4] == 0);
    }
    let at = longest_run(g, 0);
    let m = zero_run(g, at) as int;
    lemma_longest(g, 0);
    lemma_zero_run(g, at);
    assert(is_zeros(g, at, m));
    assert(n <= m) by {
        lemma_run_covers(g, start, n);
    }
    if n > 0 {
        lemma_run_covers(g, start, n);
        assert(m == n);
        assert(start <= at);
        assert(at <= start);
    }
    lemma_joined_is_written(g.take(start));
    lemma_joined_is_written(g.skip(start + n));
    lemma_joined_is_written(g);
}

/// Zeros that stand in a row are part of the run that starts there.
proof fn lemma_run_covers(g: Seq<u16>, start: int, n: int)
    requires
        is_zeros(g, start, n),
    ensures
        zero_run(g, start) >= n,
    decreases n,
{
    if n > 0 {
        assert(g[start] == 0);
        assert(is_zeros(g, start + 1, n - 1));
        lemma_run_covers(g, start + 1, n - 1);
    }
}

/// The longest run is at least as long as any later one, and longer than those
/// before it.
proof fn lemma_longest(g: Seq<u16>, i: int)
    requires
        0 <= i <= g.len(),
    ensures
        i <= longest_run(g, i) <= g.len(),
        forall|j: int|
            i <= j < g.len() ==> #[trigger] zero_run(g, j) <= zero_run(g, longest_run(g, i)),
        forall|j: int|
            i <= j < longest_run(g, i) ==> #[trigger] zero_run(g, j) < zero_run(
                g,
                longest_run(g, i),
            ),
    decreases g.len() - i,
{
    if i < g.len() {
        lemma_longest(g, i + 1);
    }
}

/// Joined groups are their numerals with colons between them.
proof fn lemma_joined_is_written(g: Seq<u16>)
    ensures
        joined(g) == with_colons(written(g)),
    decreases g.len(),
{
    if g.len() > 1 {
        lemma_joined_is_written(g.skip(1));
        assert(written(g).skip(1) =~= written(g.skip(1)));
    }
}

/// **An IP literal is one of the two kinds, and is taken in its canonical text**: an
/// IPv4 literal is its own.
pub proof fn law_ip_literals_have_a_canonical_text(s: Seq<char>)
    ensures
        is_ip(s) <==> is_ipv4(s) || ipv6_groups(s) is Some,
        ipv6_groups(s) matches Some(g) ==> canonical_ip(s) == ipv6_text(g),
        is_ipv4(s) ==> canonical_ip(s) == s && ipv6_groups(s) is None,
{
    lemma_ip_kinds_differ(s);
}

} // verus!
