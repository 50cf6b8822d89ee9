//! IPv4 addresses and their dotted-quad text.
//!
//! The text of an address is its four octets in decimal notation, joined by
//! dots. A string is an IPv4 literal exactly when it is the text of some
//! address, so a leading zero, a sign, a fifth field or an octet over 255
//! each make a string no literal. [`Ipv4Address::parse`] is proved to be the
//! inverse of [`Ipv4Address::text`].

use vstd::prelude::*;
use vstd::utf8::is_ascii_chars;
use crate::decimal::{
    decimal, decimal_value, is_canonical, is_digit, lemma_decimal_is_canonical,
    lemma_decimal_of_value, lemma_value_of_decimal, push_decimal,
};

verus! {

/// An IPv4 address: its four octets, the first one first.
#[derive(Clone, Copy, Debug, PartialEq, Eq, Structural)]
pub struct Ipv4Address(pub u8, pub u8, pub u8, pub u8);

/// Whether `s` is the dotted-quad text of some address.
pub open spec fn is_ipv4_literal(s: Seq<char>) -> bool {
    exists|a: Ipv4Address| s == #[trigger] a.text()
}

/// The address that `s` is the text of, if it is the text of one.
pub open spec fn ipv4_of(s: Seq<char>) -> Option<Ipv4Address> {
    if is_ipv4_literal(s) {
        Some(choose|a: Ipv4Address| s == #[trigger] a.text())
    } else {
        None
    }
}

/// Where the run of digits that begins at `start` ends.
spec fn digits_end(s: Seq<char>, start: int) -> int
    decreases s.len() - start,
{
    if 0 <= start < s.len() && is_digit(s[start]) {
        digits_end(s, start + 1)
    } else {
        start
    }
}

/// The octet written at `start`, with the place where its digits end.
#[verifier::opaque]
spec fn octet_at(s: Seq<char>, start: int) -> Option<(u8, int)> {
    let end = digits_end(s, start);
    let digits = s.subrange(start, end);
    if is_canonical(digits) && digits.len() <= 3 && decimal_value(digits) <= 255 {
        Some((decimal_value(digits) as u8, end))
    } else {
        None
    }
}

/// The octet written at `start` and followed by a dot, with the place
/// behind that dot.
spec fn octet_dot_at(s: Seq<char>, start: int) -> Option<(u8, int)> {
    match octet_at(s, start) {
        Some((octet, end)) => if end < s.len() && s[end] == '.' {
            Some((octet, end + 1))
        } else {
            None
        },
        None => None,
    }
}

/// What a reader that goes through `s` from left to right makes of it.
spec fn scan(s: Seq<char>) -> Option<Ipv4Address> {
    match octet_dot_at(s, 0) {
        Some((a, i)) => match octet_dot_at(s, i) {
            Some((b, j)) => match octet_dot_at(s, j) {
                Some((c, k)) => match octet_at(s, k) {
                    Some((d, end)) => if end == s.len() {
                        Some(Ipv4Address(a, b, c, d))
                    } else {
                        None
                    },
                    None => None,
                },
                None => None,
            },
            None => None,
        },
        None => None,
    }
}

proof fn lemma_digits_end(s: Seq<char>, start: int)
    requires
        0 <= start <= s.len(),
    ensures
        start <= digits_end(s, start) <= s.len(),
        forall|i: int| start <= i < digits_end(s, start) ==> is_digit(#[trigger] s[i]),
        digits_end(s, start) < s.len() ==> !is_digit(s[digits_end(s, start)]),
    decreases s.len() - start,
{
    if start < s.len() && is_digit(s[start]) {
        lemma_digits_end(s, start + 1);
    }
}

proof fn lemma_digits_end_is(s: Seq<char>, start: int, end: int)
    requires
        0 <= start <= end <= s.len(),
        forall|i: int| start <= i < end ==> is_digit(#[trigger] s[i]),
        end < s.len() ==> !is_digit(s[end]),
    ensures
        digits_end(s, start) == end,
    decreases end - start,
{
    if start < end {
        assert(is_digit(s[start]));
        lemma_digits_end_is(s, start + 1, end);
    }
}

proof fn lemma_digits_end_at_least(s: Seq<char>, start: int, seen: int)
    requires
        0 <= start <= seen <= s.len(),
        forall|i: int| start <= i < seen ==> is_digit(#[trigger] s[i]),
    ensures
        digits_end(s, start) >= seen,
    decreases seen - start,
{
    if start < seen {
        assert(is_digit(s[start]));
        lemma_digits_end_at_least(s, start + 1, seen);
    } else {
        lemma_digits_end(s, start);
    }
}

/// The notation of an octet has at most three digits.
proof fn lemma_octet_width(octet: u8)
    ensures
        1 <= decimal(octet as nat).len() <= 3,
{
    let n = octet as nat;
    lemma_decimal_is_canonical(n);
    if n >= 10 {
        lemma_decimal_is_canonical(n / 10);
        if n / 10 >= 10 {
            lemma_decimal_is_canonical(n / 10 / 10);
        }
    }
}

proof fn lemma_octet_at_reads(s: Seq<char>, start: int, octet: u8)
    requires
        0 <= start,
        start + decimal(octet as nat).len() <= s.len(),
        s.subrange(start, start + decimal(octet as nat).len()) == decimal(octet as nat),
        start + decimal(octet as nat).len() < s.len() ==> !is_digit(
            s[start + decimal(octet as nat).len()],
        ),
    ensures
        octet_at(s, start) == Some((octet, start + decimal(octet as nat).len())),
{
    reveal(octet_at);
    let digits = decimal(octet as nat);
    let end = start + digits.len();
    lemma_decimal_is_canonical(octet as nat);
    lemma_octet_width(octet);
    lemma_value_of_decimal(octet as nat);
    assert forall|i: int| start <= i < end implies is_digit(#[trigger] s[i]) by {
        assert(s[i] == s.subrange(start, end)[i - start]);
    }
    lemma_digits_end_is(s, start, end);
}

proof fn lemma_octet_at_sound(s: Seq<char>, start: int)
    requires
        0 <= start <= s.len(),
        octet_at(s, start) is Some,
    ensures
        octet_at(s, start) matches Some((octet, end)) ==> {
            &&& start < end <= s.len()
            &&& s.subrange(start, end) == decimal(octet as nat)
        },
{
    reveal(octet_at);
    lemma_digits_end(s, start);
    lemma_decimal_of_value(s.subrange(start, digits_end(s, start)));
}

/// What the reader makes of a string is an address with that text.
proof fn lemma_scan_sound(s: Seq<char>)
    requires
        scan(s) is Some,
    ensures
        s == scan(s)->0.text(),
{
    let address = scan(s)->0;
    let (a, i) = octet_dot_at(s, 0)->0;
    lemma_octet_at_sound(s, 0);
    assert(s.subrange(0, i - 1) == decimal(a as nat) && s[i - 1] == '.' && i <= s.len());
    let (b, j) = octet_dot_at(s, i)->0;
    lemma_octet_at_sound(s, i);
    assert(s.subrange(i, j - 1) == decimal(b as nat) && s[j - 1] == '.' && j <= s.len());
    let (c, k) = octet_dot_at(s, j)->0;
    lemma_octet_at_sound(s, j);
    assert(s.subrange(j, k - 1) == decimal(c as nat) && s[k - 1] == '.' && k <= s.len());
    let (d, end) = octet_at(s, k)->0;
    lemma_octet_at_sound(s, k);
    assert(s.subrange(k, end) == decimal(d as nat) && end == s.len());
    assert(address == Ipv4Address(a, b, c, d));
    let dot = seq!['.'];
    assert(s =~= s.subrange(0, i - 1) + dot + s.subrange(i, j - 1) + dot + s.subrange(j, k - 1)
        + dot + s.subrange(k, end));
}

/// The reader makes of the text of an address that address.
proof fn lemma_scan_complete(address: Ipv4Address)
    ensures
        scan(address.text()) == Some(address),
{
    let s = address.text();
    let dot = seq!['.'];
    let a = decimal(address.0 as nat);
    let b = decimal(address.1 as nat);
    let c = decimal(address.2 as nat);
    let d = decimal(address.3 as nat);
    assert(s == a + dot + b + dot + c + dot + d);
    let i: int = a.len() as int + 1;
    let j: int = i + b.len() + 1;
    let k: int = j + c.len() + 1;
    assert(!is_digit('.'));
    assert(s.subrange(0, i - 1) =~= a);
    assert(s[i - 1] == '.');
    lemma_octet_at_reads(s, 0, address.0);
    assert(s.subrange(i, j - 1) =~= b);
    assert(s[j - 1] == '.');
    lemma_octet_at_reads(s, i, address.1);
    assert(s.subrange(j, k - 1) =~= c);
    assert(s[k - 1] == '.');
    lemma_octet_at_reads(s, j, address.2);
    assert(s.subrange(k, s.len() as int) =~= d);
    lemma_octet_at_reads(s, k, address.3);
}

proof fn lemma_scan_is_ipv4_of(s: Seq<char>)
    ensures
        scan(s) == ipv4_of(s),
{
    if is_ipv4_literal(s) {
        let address = choose|a: Ipv4Address| s == #[trigger] a.text();
        lemma_scan_complete(address);
    } else if scan(s) is Some {
        lemma_scan_sound(s);
        assert(s == scan(s)->0.text());
    }
}

/// The text of an address holds digits and dots only.
proof fn lemma_text_is_ascii(address: Ipv4Address)
    ensures
        is_ascii_chars(address.text()),
{
    lemma_decimal_is_canonical(address.0 as nat);
    lemma_decimal_is_canonical(address.1 as nat);
    lemma_decimal_is_canonical(address.2 as nat);
    lemma_decimal_is_canonical(address.3 as nat);
    let s = address.text();
    let a = decimal(address.0 as nat);
    let b = decimal(address.1 as nat);
    let c = decimal(address.2 as nat);
    let d = decimal(address.3 as nat);
    let i: int = a.len() as int + 1;
    let j: int = i + b.len() + 1;
    let k: int = j + c.len() + 1;
    assert forall|p: int| 0 <= p < s.len() implies '\0' <= #[trigger] s[p] <= '\u{7f}' by {
        if p < i - 1 {
            assert(s[p] == a[p]);
        } else if p == i - 1 {
        } else if p < j - 1 {
            assert(s[p] == b[p - i]);
        } else if p == j - 1 {
        } else if p < k - 1 {
            assert(s[p] == c[p - j]);
        } else if p == k - 1 {
        } else {
            assert(s[p] == d[p - k]);
        }
    }
}

/// Two addresses with the same text are the same address.
pub proof fn lemma_text_injective(a: Ipv4Address, b: Ipv4Address)
    requires
        a.text() == b.text(),
    ensures
        a == b,
{
    lemma_scan_complete(a);
    lemma_scan_complete(b);
}

/// The text of an address is an IPv4 literal, and it is the literal of that
/// address and of no other.
pub proof fn lemma_text_is_literal(address: Ipv4Address)
    ensures
        is_ipv4_literal(address.text()),
        ipv4_of(address.text()) == Some(address),
{
    lemma_scan_complete(address);
    lemma_scan_is_ipv4_of(address.text());
}

/// An IPv4 literal is the text of the address it stands for.
pub proof fn lemma_literal_is_text(s: Seq<char>)
    requires
        ipv4_of(s) is Some,
    ensures
        s == ipv4_of(s)->0.text(),
{
}

/// Reads the octet whose digits begin at `start`.
fn read_octet(s: &str, start: usize) -> (found: Option<(u8, usize)>)
    requires
        is_ascii_chars(s@),
        start <= s@.len(),
    ensures
        match found {
            Some((octet, end)) => octet_at(s@, start as int) == Some((octet, end as int)),
            None => octet_at(s@, start as int) is None,
        },
{
    let bytes = s.as_bytes();
    let n: usize = bytes.len();
    proof {
        reveal(octet_at);
        vstd::string::is_ascii_spec_bytes(s);
    }
    let mut end: usize = start;
    let mut value: u32 = 0;
    while end < n && 48 <= bytes[end] && bytes[end] <= 57
        invariant
            is_ascii_chars(s@),
            n == s@.len(),
            bytes@ == Seq::new(s@.len(), |i: int| s@[i] as u8),
            start <= end <= n,
            end - start <= 3,
            forall|i: int| start <= i < end ==> is_digit(#[trigger] s@[i]),
            value == decimal_value(s@.subrange(start as int, end as int)),
            value <= 999,
            end - start <= 2 ==> value <= 99,
            end - start <= 1 ==> value <= 9,
            end == start ==> value == 0,
        decreases n - end,
    {
        assert(bytes[end as int] == s@[end as int] as u8);
        assert(is_digit(s@[end as int]));
        if end - start == 3 {
            proof {
                reveal(octet_at);
                lemma_digits_end_at_least(s@, start as int, end + 1);
                lemma_digits_end(s@, start as int);
            }
            return None;
        }
        proof {
            let longer = s@.subrange(start as int, end + 1);
            assert(longer.drop_last() =~= s@.subrange(start as int, end as int));
            assert(longer.last() == s@[end as int]);
        }
        value = value * 10 + (bytes[end] - 48) as u32;
        end = end + 1;
    }
    proof {
        if end < n {
            assert(bytes[end as int] == s@[end as int] as u8);
            assert(!is_digit(s@[end as int]));
        }
        lemma_digits_end_is(s@, start as int, end as int);
    }
    if end == start {
        return None;
    }
    if end - start > 1 && bytes[start] == 48 {
        assert(bytes[start as int] == s@[start as int] as u8);
        assert(s@.subrange(start as int, end as int)[0] == s@[start as int]);
        return None;
    }
    if value > 255 {
        return None;
    }
    proof {
        let digits = s@.subrange(start as int, end as int);
        assert(bytes[start as int] == s@[start as int] as u8);
        assert(digits[0] == s@[start as int]);
        assert forall|i: int| 0 <= i < digits.len() implies is_digit(#[trigger] digits[i]) by {
            assert(digits[i] == s@[start + i]);
        }
    }
    Some((value as u8, end))
}

/// Reads the octet whose digits begin at `start`, and the dot behind it.
fn read_octet_dot(s: &str, start: usize) -> (found: Option<(u8, usize)>)
    requires
        is_ascii_chars(s@),
        start <= s@.len(),
    ensures
        match found {
            Some((octet, next)) => {
                &&& octet_dot_at(s@, start as int) == Some((octet, next as int))
                &&& next <= s@.len()
            },
            None => octet_dot_at(s@, start as int) is None,
        },
{
    let bytes = s.as_bytes();
    proof {
        vstd::string::is_ascii_spec_bytes(s);
    }
    match read_octet(s, start) {
        Some((octet, end)) => {
            proof {
                lemma_digits_end(s@, start as int);
            }
            if end < bytes.len() && bytes[end] == 46 {
                assert(bytes[end as int] == s@[end as int] as u8);
                Some((octet, end + 1))
            } else {
                if end < bytes.len() {
                    assert(bytes[end as int] == s@[end as int] as u8);
                }
                None
            }
        },
        None => None,
    }
}

impl Ipv4Address {
    /// The dotted-quad text of the address.
    pub open spec fn text(self) -> Seq<char> {
        decimal(self.0 as nat) + seq!['.'] + decimal(self.1 as nat) + seq!['.'] + decimal(
            self.2 as nat,
        ) + seq!['.'] + decimal(self.3 as nat)
    }

    /// The address that `s` is the dotted-quad text of; `None` where `s` is
    /// the text of no address.
    pub fn parse(s: &str) -> (parsed: Option<Ipv4Address>)
        ensures
            parsed == ipv4_of(s@),
            parsed matches Some(address) ==> s@ == address.text(),
    {
        if !s.is_ascii() {
            proof {
                if is_ipv4_literal(s@) {
                    let address = choose|a: Ipv4Address| s@ == #[trigger] a.text();
                    lemma_text_is_ascii(address);
                }
            }
            return None;
        }
        proof {
            lemma_scan_is_ipv4_of(s@);
        }
        let (a, i) = match read_octet_dot(s, 0) {
            Some(found) => found,
            None => { return None; },
        };
        let (b, j) = match read_octet_dot(s, i) {
            Some(found) => found,
            None => { return None; },
        };
        let (c, k) = match read_octet_dot(s, j) {
            Some(found) => found,
            None => { return None; },
        };
        match read_octet(s, k) {
            Some((d, end)) => {
                proof {
                    lemma_digits_end(s@, k as int);
                }
                if end == s.as_bytes().len() {
                    Some(Ipv4Address(a, b, c, d))
                } else {
                    None
                }
            },
            None => None,
        }
    }

    /// The dotted-quad text of the address.
    pub fn to_text(&self) -> (text: String)
        ensures
            text@ == self.text(),
    {
        proof {
            reveal_strlit(".");
        }
        let mut text = String::new();
        push_decimal(&mut text, self.0 as u64);
        text.append(".");
        push_decimal(&mut text, self.1 as u64);
        text.append(".");
        push_decimal(&mut text, self.2 as u64);
        text.append(".");
        push_decimal(&mut text, self.3 as u64);
        assert(text@ =~= self.text());
        text
    }

    /// The four octets, the first one first.
    pub fn octets(&self) -> (octets: [u8; 4])
        ensures
            octets@ == seq![self.0, self.1, self.2, self.3],
    {
        let octets: [u8; 4] = [self.0, self.1, self.2, self.3];
        assert(octets@ =~= seq![self.0, self.1, self.2, self.3]);
        octets
    }
}

} // verus!
