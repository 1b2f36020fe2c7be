//! What holds of addresses and their texts.

use crate::ip::{
    canonical_ip, ipv6_groups, is_ip, is_ip_char, is_ipv4, is_ipv6, lemma_ipv4_chars,
    lemma_ipv6_chars, lemma_ipv6_text,
};
use crate::models::{
    address_of, address_text, bracketed, misread, port_value, same_outcome, Address, ServerAddress,
};
use crate::ip_laws::{dec_worth, lemma_dec_worth};
use crate::text::{
    all_digits, debug_text, decimal, digit_value, is_white_space, lemma_first, lemma_last,
    lemma_numeral, trimmed,
};
use vstd::prelude::*;

verus! {

/// The addresses that some text denotes: the host is not empty, and one that
/// would be misread without brackets does not itself hold the bracket that
/// closes them.
pub open spec fn readable(address: Address) -> bool {
    &&& address.host.len() > 0
    &&& misread(address) ==> !address.host.contains(']')
}

/// A port's numeral denotes the port.
proof fn lemma_port_numeral(port: u16)
    ensures
        port_value(decimal(port as nat)) == Some(port),
        decimal(port as nat).len() > 0,
        forall|i: int|
            0 <= i < decimal(port as nat).len() ==> '0' <= #[trigger] decimal(port as nat)[i]
                <= '9',
{
    let s = decimal(port as nat);
    lemma_numeral(port as nat, 10);
    assert forall|i: int| 0 <= i < s.len() implies '0' <= #[trigger] s[i] <= '9' by {
        assert(digit_value(s[i], 10) is Some);
    }
    assert(s[0] != '+');
}

/// **Parsing the text of a parsed address yields the same address again.**
pub proof fn law_parsed_address_round_trips(text: Seq<char>)
    ensures
        address_of(text) is Ok ==> address_of(address_text(address_of(text)->Ok_0)) == address_of(
            text,
        ),
{
    if address_of(text) is Ok {
        lemma_parsed_is_readable(text);
        lemma_readable_parses_back(address_of(text)->Ok_0);
    }
}

/// **The text of an address parses to that address if, and only if, there is a
/// text that does.** Those are the readable ones.
pub proof fn law_address_text_parses_back(address: Address)
    ensures
        address_of(address_text(address)) == Ok::<Address, Seq<char>>(address) <==> readable(
            address,
        ),
        (exists|text: Seq<char>| #[trigger]
            address_of(text) == Ok::<Address, Seq<char>>(address)) <==> readable(address),
{
    if readable(address) {
        lemma_readable_parses_back(address);
    }
    if exists|text: Seq<char>| #[trigger] address_of(text) == Ok::<Address, Seq<char>>(address) {
        let text = choose|text: Seq<char>| #[trigger]
            address_of(text) == Ok::<Address, Seq<char>>(address);
        lemma_parsed_is_readable(text);
    }
}

/// A readable address is what its text denotes.
proof fn lemma_readable_parses_back(address: Address)
    requires
        readable(address),
    ensures
        address_of(address_text(address)) == Ok::<Address, Seq<char>>(address),
{
    let host = address.host;
    let text = address_text(address);
    if address.port is Some {
        lemma_port_numeral(address.port.unwrap());
        assert(text.last() == decimal(address.port.unwrap() as nat).last());
    }
    if bracketed(address) {
        assert(text[0] == '[');
        assert(trimmed(text) == text);
        let rest = text.skip(1);
        if is_ipv6(host) {
            lemma_ipv6_chars(host);
            let (i, j) = choose|i: int, j: int|
                0 <= i < j < host.len() && host[i] == ':' && host[j] == ':';
            assert(host.contains(host[i]));
        }
        assert forall|j: int| 0 <= j < host.len() implies rest[j] != ']' by {
            assert(rest[j] == host[j]);
            assert(host.contains(host[j]));
        }
        lemma_first(rest, ']', host.len() as int);
        assert(rest.take(host.len() as int) =~= host);
        match address.port {
            Some(port) => {
                let tail = rest.skip(host.len() as int + 1);
                assert(tail =~= seq![':'] + decimal(port as nat));
                assert(tail.skip(1) =~= decimal(port as nat));
            },
            None => {
                assert(rest.skip(host.len() as int + 1) =~= Seq::<char>::empty());
            },
        }
    } else {
        match address.port {
            Some(port) => {
                assert(text[0] == host[0]);
                assert(trimmed(text) == text);
                let digits = decimal(port as nat);
                assert(text =~= host + seq![':'] + digits);
                let n = host.len() as int;
                assert forall|j: int| 0 <= j < text.len() && j != n implies text[j] != ':' by {
                    if j < n {
                        assert(text[j] == host[j]);
                        assert(host.contains(host[j]));
                    } else {
                        assert(text[j] == digits[j - n - 1]);
                    }
                }
                assert(text[n] == ':');
                assert(!is_ip(text)) by {
                    if is_ipv4(text) {
                        lemma_ipv4_chars(text);
                        assert(text.contains(text[n]));
                    }
                    if is_ipv6(text) {
                        lemma_ipv6_chars(text);
                    }
                }
                lemma_last(text, ':', n);
                assert(text.take(n) =~= host);
                assert(text.skip(n + 1) =~= digits);
            },
            None => {
                assert(text == host);
                assert(trimmed(text) == text);
                text.index_of_last_ensures(':');
            },
        }
    }
}

/// Trimming leaves no whitespace at the ends.
proof fn lemma_trimmed(s: Seq<char>)
    ensures
        trimmed(s).len() > 0 ==> !is_white_space(trimmed(s)[0]) && !is_white_space(
            trimmed(s).last(),
        ),
    decreases s.len(),
{
    if s.len() == 0 {
    } else if is_white_space(s[0]) {
        lemma_trimmed(s.skip(1));
    } else if is_white_space(s.last()) {
        lemma_trimmed(s.drop_last());
    }
}

/// What a text denotes is readable.
proof fn lemma_parsed_is_readable(text: Seq<char>)
    requires
        address_of(text) is Ok,
    ensures
        readable(address_of(text)->Ok_0),
{
    let address = address_of(text)->Ok_0;
    let t = trimmed(text);
    lemma_trimmed(text);
    if t[0] == '[' {
        let rest = t.skip(1);
        rest.index_of_first_ensures(']');
        let i = rest.index_of_first(']').unwrap();
        assert(address.host == rest.take(i));
        assert forall|k: int| 0 <= k < i implies address.host[k] != ']' by {
            assert(address.host[k] == rest[k]);
        }
    } else if is_ip(t) {
        if is_ipv6(t) {
            lemma_ipv6_text(ipv6_groups(t).unwrap());
            lemma_ipv6_chars(address.host);
            assert forall|k: int| 0 <= k < address.host.len() implies address.host[k] != ']' by {
                assert(is_ip_char(address.host[k]));
            }
        } else {
            lemma_ipv4_chars(t);
            assert(is_ip_char(t[0]));
        }
    } else {
        t.index_of_last_ensures(':');
        if let Some(i) = t.index_of_last(':') {
            assert(t.take(i)[0] == t[0]);
        }
        assert(!is_ipv6(address.host)) by {
            if is_ipv6(address.host) {
                lemma_ipv6_chars(address.host);
                let (i, j) = choose|i: int, j: int|
                    0 <= i < j < address.host.len() && address.host[i] == ':' && address.host[j]
                        == ':';
                assert(address.host.contains(address.host[i]));
            }
        }
    }
}

/// **Whitespace around an address does not count.**
pub proof fn law_surrounding_whitespace_does_not_count(text: Seq<char>)
    ensures
        address_of(text) == address_of(trimmed(text)),
{
    lemma_trimmed(text);
}

/// **A bare IP literal never carries a port**: all of it is the host, however
/// many colons it holds.
pub proof fn law_bare_ip_literal_has_no_port(text: Seq<char>)
    requires
        is_ip(text),
    ensures
        address_of(text) == Ok::<Address, Seq<char>>(
            Address { host: canonical_ip(text), port: None },
        ),
{
    if is_ipv6(text) {
        lemma_ipv6_chars(text);
    } else {
        lemma_ipv4_chars(text);
    }
    assert(is_ip_char(text[0]));
    assert(is_ip_char(text[text.len() - 1]));
}

// ─── Forms ───────────────────────────────────────────────────────────────────

/// A text without the `+` in front, where it has one.
pub open spec fn unsigned(text: Seq<char>) -> Seq<char> {
    if text.len() > 0 && text[0] == '+' {
        text.skip(1)
    } else {
        text
    }
}

/// Whether a text is decimal digits, one at least.
pub open spec fn is_decimal(digits: Seq<char>) -> bool {
    &&& digits.len() > 0
    &&& forall|i: int| 0 <= i < digits.len() ==> '0' <= #[trigger] digits[i] <= '9'
}

/// **A port is a decimal number up to 65535**, with or without a `+` in front, and
/// of however many digits.
pub proof fn law_port_is_a_number_of_16_bits(text: Seq<char>, value: u16)
    ensures
        port_value(text) == Some(value) <==> is_decimal(unsigned(text)) && dec_worth(
            unsigned(text),
        ) == value,
{
    let digits = unsigned(text);
    if is_decimal(digits) {
        lemma_dec_worth(digits);
    } else if all_digits(digits, 10) {
        assert forall|i: int| 0 <= i < digits.len() implies '0' <= #[trigger] digits[i] <= '9' by {
            assert(digit_value(digits[i], 10) is Some);
        }
    }
}

/// Whether nothing is trimmed from a text, and it is not of the bracket form.
pub open spec fn is_plain_form(text: Seq<char>) -> bool {
    &&& text.len() > 0
    &&& !is_white_space(text[0])
    &&& !is_white_space(text.last())
    &&& text[0] != '['
}

/// **A text without a colon is a host**, whatever it holds.
pub proof fn law_text_without_colon_is_a_host(host: Seq<char>)
    requires
        is_plain_form(host),
        !host.contains(':'),
    ensures
        address_of(host) == Ok::<Address, Seq<char>>(Address { host, port: None }),
{
    host.index_of_last_ensures(':');
    if is_ipv6(host) {
        lemma_ipv6_chars(host);
        let (i, j) = choose|i: int, j: int|
            0 <= i < j < host.len() && host[i] == ':' && host[j] == ':';
        assert(host.contains(host[i]));
    }
}

/// **What follows the last colon is the port**: it is judged first, then the host,
/// which must not be empty nor hold another colon.
pub proof fn law_last_colon_parts_host_and_port(host: Seq<char>, port: Seq<char>)
    requires
        is_plain_form(host + seq![':'] + port),
        !port.contains(':'),
        !is_ip(host + seq![':'] + port),
    ensures
        ({
            let text = host + seq![':'] + port;
            address_of(text) == (match port_value(port) {
                None => Err::<Address, Seq<char>>("invalid port "@ + debug_text(port)),
                Some(value) => if host.len() == 0 {
                    Err("missing host in "@ + debug_text(text))
                } else if host.contains(':') {
                    Err(
                        "invalid host "@ + debug_text(host) + " in "@ + debug_text(text)
                            + ": write IPv6 literals in brackets"@,
                    )
                } else {
                    Ok(Address { host, port: Some(value) })
                },
            })
        }),
{
    let text = host + seq![':'] + port;
    let n = host.len() as int;
    assert(text[n] == ':');
    assert forall|j: int| n < j < text.len() implies text[j] != ':' by {
        assert(text[j] == port[j - n - 1]);
        assert(port.contains(port[j - n - 1]));
    }
    lemma_last(text, ':', n);
    assert(text.take(n) =~= host);
    assert(text.skip(n + 1) =~= port);
    assert(trimmed(text) == text);
}

/// **Brackets part the host from what follows**: nothing, or a colon and the port.
/// Without the closing one, without a host, or with anything else behind them,
/// there is no address.
pub proof fn law_brackets_part_host_and_port(host: Seq<char>, tail: Seq<char>)
    requires
        !host.contains(']'),
        tail.len() > 0 ==> !is_white_space(tail.last()),
    ensures
        ({
            let text = seq!['['] + host + seq![']'] + tail;
            address_of(text) == (if host.len() == 0 {
                Err::<Address, Seq<char>>("missing host in "@ + debug_text(text))
            } else if tail.len() == 0 {
                Ok(Address { host, port: None })
            } else if tail[0] != ':' {
                Err("unexpected "@ + debug_text(tail) + " after ']' in "@ + debug_text(text))
            } else {
                match port_value(tail.skip(1)) {
                    Some(port) => Ok(Address { host, port: Some(port) }),
                    None => Err("invalid port "@ + debug_text(tail.skip(1))),
                }
            })
        }),
        host.len() == 0 || !is_white_space(host.last()) ==> address_of(seq!['['] + host) == Err::<
            Address,
            Seq<char>,
        >("missing ']' in "@ + debug_text(seq!['['] + host)),
{
    let text = seq!['['] + host + seq![']'] + tail;
    let rest = text.skip(1);
    let n = host.len() as int;
    assert(text[0] == '[');
    assert(tail.len() > 0 ==> text.last() == tail.last());
    assert(tail.len() == 0 ==> text.last() == ']');
    assert(trimmed(text) == text);
    assert forall|j: int| 0 <= j < n implies rest[j] != ']' by {
        assert(rest[j] == host[j]);
        assert(host.contains(host[j]));
    }
    assert(rest[n] == ']');
    lemma_first(rest, ']', n);
    assert(rest.take(n) =~= host);
    assert(rest.skip(n + 1) =~= tail);
    let open = seq!['['] + host;
    if host.len() == 0 || !is_white_space(host.last()) {
        assert(open[0] == '[');
        assert(host.len() > 0 ==> open.last() == host.last());
        assert(trimmed(open) == open);
        assert(open.skip(1) =~= host);
        host.index_of_first_ensures(']');
    }
}

/// **A text of whitespace alone is no address.**
pub proof fn law_blank_text_is_no_address(text: Seq<char>)
    requires
        trimmed(text).len() == 0,
    ensures
        address_of(text) == Err::<Address, Seq<char>>("empty address"@),
{
}

/// **An address shows its host and, where it has one, its port**: the host as it
/// is, in brackets if it is an IPv6 literal, or else holds a colon, opens with a
/// bracket or has whitespace where it would be lost, unless it holds the closing
/// bracket itself.
pub proof fn law_address_shows_host_and_port(address: Address)
    ensures
        ({
            let host = address.host;
            let lost = host.contains(':') || (host.len() > 0 && (host[0] == '[' || is_white_space(
                host[0],
            ) || (address.port is None && is_white_space(host.last()))));
            let shown = if is_ipv6(host) || (lost && !host.contains(']')) {
                seq!['['] + host + seq![']']
            } else {
                host
            };
            &&& address.port is None ==> address_text(address) == shown
            &&& address.port matches Some(port) ==> address_text(address) == shown + seq![':']
                + decimal(port as nat)
        }),
{
}

/// **A parse result is the expected one when nothing is lost of it**: the same host
/// and port, or the same message.
pub proof fn law_outcomes_say_it_all(
    result: Result<ServerAddress, String>,
    address: Address,
    message: Seq<char>,
)
    ensures
        same_outcome(result, Ok(address)) <==> (result matches Ok(found) && found.host@
            == address.host && found.port == address.port),
        same_outcome(result, Err(message)) <==> (result matches Err(found) && found@ == message),
{
    if let Ok(found) = result {
        assert(found@ == address <==> found@.host == address.host && found@.port == address.port);
    }
}

} // verus!
