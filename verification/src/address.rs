//! The textual form of a peer's address: the host, a colon, and the port in
//! decimal.

use vstd::prelude::*;
use vstd::utf8::{encode_utf8, encode_utf8_decode_utf8};

verus! {

/// The character that writes the decimal digit `d`.
pub open spec fn digit_char(d: nat) -> char {
    if d == 0 {
        '0'
    } else if d == 1 {
        '1'
    } else if d == 2 {
        '2'
    } else if d == 3 {
        '3'
    } else if d == 4 {
        '4'
    } else if d == 5 {
        '5'
    } else if d == 6 {
        '6'
    } else if d == 7 {
        '7'
    } else if d == 8 {
        '8'
    } else {
        '9'
    }
}

/// Whether `c` is one of the ten decimal digits.
pub open spec fn is_digit(c: char) -> bool {
    '0' <= c <= '9'
}

/// The decimal numeral of `n`, without leading zeros (`0` is written "0").
pub open spec fn decimal_text(n: nat) -> Seq<char>
    decreases n,
{
    if n < 10 {
        seq![digit_char(n)]
    } else {
        decimal_text(n / 10).push(digit_char(n % 10))
    }
}

/// The text under which a peer is listed: `host`, a colon, `port` in decimal.
pub open spec fn address_text(host: Seq<char>, port: u16) -> Seq<char> {
    host + seq![':'] + decimal_text(port as nat)
}

/// Where the reachability probe of a peer is sent: the scheme, then the
/// peer's address.
pub open spec fn probe_url_text(host: Seq<char>, port: u16) -> Seq<char> {
    "http://"@ + address_text(host, port)
}

/// A decimal numeral is not empty and holds digits only.
pub proof fn lemma_decimal_text_digits(n: nat)
    ensures
        decimal_text(n).len() >= 1,
        n >= 10 ==> decimal_text(n).len() >= 2,
        forall|i: int| 0 <= i < decimal_text(n).len() ==> is_digit(#[trigger] decimal_text(n)[i]),
    decreases n,
{
    if n >= 10 {
        lemma_decimal_text_digits(n / 10);
    }
}

/// Different numbers have different numerals.
pub proof fn lemma_decimal_text_injective(a: nat, b: nat)
    requires
        decimal_text(a) == decimal_text(b),
    ensures
        a == b,
    decreases a,
{
    lemma_decimal_text_digits(a);
    lemma_decimal_text_digits(b);
    if a < 10 && b < 10 {
        assert(decimal_text(a)[0] == digit_char(a));
        assert(decimal_text(b)[0] == digit_char(b));
    } else if a >= 10 && b >= 10 {
        let front_a = decimal_text(a / 10);
        let front_b = decimal_text(b / 10);
        assert(front_a =~= decimal_text(a).drop_last());
        assert(front_b =~= decimal_text(b).drop_last());
        assert(digit_char(a % 10) == decimal_text(a).last());
        assert(digit_char(b % 10) == decimal_text(b).last());
        lemma_decimal_text_injective(a / 10, b / 10);
        assert(a % 10 == b % 10);
        assert(a == 10 * (a / 10) + a % 10);
        assert(b == 10 * (b / 10) + b % 10);
    } else if a < 10 {
        assert(decimal_text(a).len() == 1);
        assert(decimal_text(b).len() >= 2);
    } else {
        assert(decimal_text(b).len() == 1);
        assert(decimal_text(a).len() >= 2);
    }
}

/// An address names one peer: from the text of an address, the host and the
/// port can be told.
pub proof fn lemma_address_text_injective(host_a: Seq<char>, port_a: u16, host_b: Seq<char>, port_b: u16)
    requires
        address_text(host_a, port_a) == address_text(host_b, port_b),
    ensures
        host_a == host_b,
        port_a == port_b,
{
    let text = address_text(host_a, port_a);
    let digits_a = decimal_text(port_a as nat);
    let digits_b = decimal_text(port_b as nat);
    lemma_decimal_text_digits(port_a as nat);
    lemma_decimal_text_digits(port_b as nat);
    assert(text.len() == host_a.len() + 1 + digits_a.len());
    assert(text.len() == host_b.len() + 1 + digits_b.len());
    if host_a.len() < host_b.len() {
        // The colon that ends the longer host would stand among the digits
        // of the longer numeral.
        let at = host_b.len() as int;
        assert(address_text(host_b, port_b)[at] == ':');
        assert(address_text(host_a, port_a)[at] == digits_a[at - host_a.len() - 1]);
        assert(is_digit(digits_a[at - host_a.len() - 1]));
        assert(false);
    } else if host_b.len() < host_a.len() {
        let at = host_a.len() as int;
        assert(address_text(host_a, port_a)[at] == ':');
        assert(address_text(host_b, port_b)[at] == digits_b[at - host_b.len() - 1]);
        assert(is_digit(digits_b[at - host_b.len() - 1]));
        assert(false);
    } else {
        assert(host_a =~= host_b) by {
            assert forall|i: int| 0 <= i < host_a.len() implies host_a[i] == host_b[i] by {
                assert(address_text(host_a, port_a)[i] == host_a[i]);
                assert(address_text(host_b, port_b)[i] == host_b[i]);
            }
        }
        assert(digits_a =~= digits_b) by {
            assert forall|i: int| 0 <= i < digits_a.len() implies digits_a[i] == digits_b[i] by {
                assert(address_text(host_a, port_a)[host_a.len() + 1 + i] == digits_a[i]);
                assert(address_text(host_b, port_b)[host_b.len() + 1 + i] == digits_b[i]);
            }
        }
        lemma_decimal_text_injective(port_a as nat, port_b as nat);
    }
}

/// Whether two strings hold the same text.
pub fn same_text(a: &str, b: &str) -> (same: bool)
    ensures
        same == (a@ == b@),
{
    let left = a.as_bytes();
    let right = b.as_bytes();
    proof {
        encode_utf8_decode_utf8(a@);
        encode_utf8_decode_utf8(b@);
    }
    if left.len() != right.len() {
        return false;
    }
    let mut i: usize = 0;
    while i < left.len()
        invariant
            i <= left.len(),
            left.len() == right.len(),
            left@ == encode_utf8(a@),
            right@ == encode_utf8(b@),
            forall|k: int| 0 <= k < i ==> left@[k] == right@[k],
        decreases left.len() - i,
    {
        if left[i] != right[i] {
            return false;
        }
        i += 1;
    }
    assert(left@ =~= right@);
    true
}

/// The one-character string of a decimal digit.
fn digit_str(d: u16) -> (text: &'static str)
    requires
        d < 10,
    ensures
        text@ == seq![digit_char(d as nat)],
{
    proof {
        reveal_strlit("0");
        reveal_strlit("1");
        reveal_strlit("2");
        reveal_strlit("3");
        reveal_strlit("4");
        reveal_strlit("5");
        reveal_strlit("6");
        reveal_strlit("7");
        reveal_strlit("8");
        reveal_strlit("9");
    }
    let text = if d == 0 {
        "0"
    } else if d == 1 {
        "1"
    } else if d == 2 {
        "2"
    } else if d == 3 {
        "3"
    } else if d == 4 {
        "4"
    } else if d == 5 {
        "5"
    } else if d == 6 {
        "6"
    } else if d == 7 {
        "7"
    } else if d == 8 {
        "8"
    } else {
        "9"
    };
    assert(text@ =~= seq![digit_char(d as nat)]);
    text
}

/// Appends the decimal numeral of `n` to `out`.
fn push_decimal(out: &mut String, n: u16)
    ensures
        final(out)@ == old(out)@ + decimal_text(n as nat),
    decreases n,
{
    if n >= 10 {
        push_decimal(out, n / 10);
    }
    out.append(digit_str(n % 10));
    assert(out@ =~= old(out)@ + decimal_text(n as nat));
}

/// Writes a peer's address as `host:port`.
pub fn format_address(host: &str, port: u16) -> (text: String)
    ensures
        text@ == address_text(host@, port),
{
    let mut text = String::new();
    text.append(host);
    text.append(":");
    proof {
        reveal_strlit(":");
    }
    assert(text@ =~= host@ + seq![':']);
    push_decimal(&mut text, port);
    text
}

/// The address to probe before a peer at `host:port` is admitted.
pub fn probe_url(host: &str, port: u16) -> (url: String)
    ensures
        url@ == probe_url_text(host@, port),
{
    let mut url = String::new();
    url.append("http://");
    url.append(host);
    url.append(":");
    proof {
        reveal_strlit(":");
    }
    assert(url@ =~= "http://"@ + host@ + seq![':']);
    push_decimal(&mut url, port);
    assert(url@ =~= probe_url_text(host@, port));
    url
}

} // verus!
