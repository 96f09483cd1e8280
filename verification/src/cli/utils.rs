//! Parsing and validation of the command-line values: the port selection,
//! the target address and the interface name.

use vstd::prelude::*;
use crate::net::{ip_text, ipv4_of_text, mac_bytes, mac_string, mac_text, parse_ipv4, Interface, IpAddr, Ipv4Addr};
use crate::text::{
    char_free, chars_of, decimal_text, digit_value, digits_value, find_char, is_digit, joined, lemma_decimal_text,
};

verus! {

/// The user's selection of ports to scan.
#[derive(Clone, Copy, Debug, PartialEq, Eq, Structural)]
pub enum IntOrRange {
    /// A single port (e.g. 80).
    Int(u16),
    /// An inclusive range of ports (e.g. 1-1000).
    Range(u16, u16),
}

/// Why a decimal `u16` could not be read, as std's `ParseIntError` tells it.
#[derive(Clone, Copy, Debug, PartialEq, Eq, Structural)]
pub enum IntErrorKind {
    /// The text is empty.
    Empty,
    /// A character is not a decimal digit (or the text is a lone sign).
    InvalidDigit,
    /// The value does not fit in a `u16`.
    PosOverflow,
}

/// Why a port selection was refused.
#[derive(Clone, Copy, Debug, PartialEq, Eq, Structural)]
pub enum PortSpecError {
    /// The text holds more than one `-`.
    RangeFormat,
    /// A number could not be read.
    ParseInt(IntErrorKind),
    /// A range starts at port 0.
    RangeStartsAtZero,
    /// A range starts after its end.
    StartAfterEnd,
    /// The single port is 0.
    PortZero,
}

/// Reads the digits `d` left to right onto the value `acc` read so far, as
/// std does: the first character that is not a digit, or the first digit
/// that takes the value past `u16::MAX`, decides the error.
pub open spec fn decimal_digits(d: Seq<char>, acc: int) -> Result<u16, IntErrorKind>
    decreases d.len(),
{
    if d.len() == 0 {
        Ok(acc as u16)
    } else if !is_digit(d[0]) {
        Err(IntErrorKind::InvalidDigit)
    } else if acc * 10 + digit_value(d[0]) > 0xffff {
        Err(IntErrorKind::PosOverflow)
    } else {
        decimal_digits(d.drop_first(), acc * 10 + digit_value(d[0]))
    }
}

/// What `s.parse::<u16>()` gives: an optional leading `+`, then at least one
/// decimal digit, with a value of at most `u16::MAX`.
pub open spec fn parse_u16_spec(s: Seq<char>) -> Result<u16, IntErrorKind> {
    if s.len() == 0 {
        Err(IntErrorKind::Empty)
    } else if s.len() == 1 && (s[0] == '+' || s[0] == '-') {
        Err(IntErrorKind::InvalidDigit)
    } else if s[0] == '+' {
        decimal_digits(s.drop_first(), 0)
    } else {
        decimal_digits(s, 0)
    }
}

/// `i` is the position of the one and only `-` of `s`.
pub open spec fn sole_dash_at(s: Seq<char>, i: int) -> bool {
    &&& 0 <= i < s.len()
    &&& s[i] == '-'
    &&& char_free('-', s.subrange(0, i))
    &&& char_free('-', s.subrange(i + 1, s.len() as int))
}

/// The port selection that the text `s` describes, or why it is refused.
pub open spec fn port_spec_of(s: Seq<char>) -> Result<IntOrRange, PortSpecError> {
    if char_free('-', s) {
        match parse_u16_spec(s) {
            Err(k) => Err(PortSpecError::ParseInt(k)),
            Ok(v) => if v == 0 {
                Err(PortSpecError::PortZero)
            } else {
                Ok(IntOrRange::Int(v))
            },
        }
    } else if exists|i: int| sole_dash_at(s, i) {
        let i = choose|i: int| sole_dash_at(s, i);
        match parse_u16_spec(s.subrange(0, i)) {
            Err(k) => Err(PortSpecError::ParseInt(k)),
            Ok(start) => match parse_u16_spec(s.subrange(i + 1, s.len() as int)) {
                Err(k) => Err(PortSpecError::ParseInt(k)),
                Ok(end) => if start == 0 {
                    Err(PortSpecError::RangeStartsAtZero)
                } else if start > end {
                    Err(PortSpecError::StartAfterEnd)
                } else {
                    Ok(IntOrRange::Range(start, end))
                },
            },
        }
    } else {
        Err(PortSpecError::RangeFormat)
    }
}

/// Reads `c[from .. to]` as a decimal `u16`, as `str::parse::<u16>` does.
pub fn parse_u16(c: &Vec<char>, from: usize, to: usize) -> (r: Result<u16, IntErrorKind>)
    requires
        from <= to <= c@.len(),
    ensures
        r == parse_u16_spec(c@.subrange(from as int, to as int)),
{
    let ghost s = c@.subrange(from as int, to as int);
    if from == to {
        return Err(IntErrorKind::Empty);
    }
    if to - from == 1 && (c[from] == '+' || c[from] == '-') {
        return Err(IntErrorKind::InvalidDigit);
    }
    let mut i: usize = if c[from] == '+' { from + 1 } else { from };
    assert(parse_u16_spec(s) == decimal_digits(c@.subrange(i as int, to as int), 0)) by {
        if c[from as int] == '+' {
            assert(s.drop_first() =~= c@.subrange(i as int, to as int));
        } else {
            assert(s =~= c@.subrange(i as int, to as int));
        }
    }
    let mut acc: u32 = 0;
    while i < to
        invariant
            from <= i <= to <= c@.len(),
            acc <= 0xffff,
            s == c@.subrange(from as int, to as int),
            parse_u16_spec(s) == decimal_digits(c@.subrange(i as int, to as int), acc as int),
        decreases to - i,
    {
        let ch = c[i];
        let ghost rest = c@.subrange(i as int, to as int);
        assert(rest.len() > 0 && rest[0] == ch);
        if !('0' <= ch && ch <= '9') {
            assert(!is_digit(rest[0]));
            return Err(IntErrorKind::InvalidDigit);
        }
        let d: u32 = (ch as u32) - ('0' as u32);
        assert(d == digit_value(rest[0]));
        if acc * 10 + d > 0xffff {
            return Err(IntErrorKind::PosOverflow);
        }
        acc = acc * 10 + d;
        i = i + 1;
        assert(rest.drop_first() =~= c@.subrange(i as int, to as int));
    }
    Ok(acc as u16)
}

/// A string with a single `-` at `d` has no other place for its one dash.
proof fn lemma_sole_dash_unique(s: Seq<char>, d: int, j: int)
    requires
        sole_dash_at(s, d),
        sole_dash_at(s, j),
    ensures
        j == d,
{
    if j < d {
        assert(s.subrange(j + 1, s.len() as int)[d - j - 1] == s[d]);
    } else if d < j {
        assert(s.subrange(0, j)[d] == s[d]);
    }
}

/// Parses a port selection: `"80"` is `Int(80)`, `"20-80"` is
/// `Range(20, 80)`. Refuses text that is neither a number nor `START-END`,
/// port 0, a range starting at 0 and a range whose start is past its end.
pub fn parse_port_spec(s: &str) -> (r: Result<IntOrRange, PortSpecError>)
    ensures
        r == port_spec_of(s@),
{
    let c = chars_of(s);
    let n = c.len();
    let first = find_char(&c, 0, '-');
    if first == n {
        assert(c@.subrange(0, n as int) =~= c@);
        return match parse_u16(&c, 0, n) {
            Err(k) => Err(PortSpecError::ParseInt(k)),
            Ok(v) => if v == 0 {
                Err(PortSpecError::PortZero)
            } else {
                Ok(IntOrRange::Int(v))
            },
        };
    }
    assert(!char_free('-', c@)) by {
        assert(c@[first as int] == '-');
    }
    let second = find_char(&c, first + 1, '-');
    if second < n {
        assert forall|j: int| !sole_dash_at(c@, j) by {
            if sole_dash_at(c@, j) {
                if j < first {
                    assert(c@.subrange(j + 1, n as int)[first - j - 1] == c@[first as int]);
                } else if j == first {
                    assert(c@.subrange(j + 1, n as int)[second - j - 1] == c@[second as int]);
                } else {
                    assert(c@.subrange(0, j)[first as int] == c@[first as int]);
                }
            }
        }
        return Err(PortSpecError::RangeFormat);
    }
    assert(sole_dash_at(c@, first as int));
    proof {
        let i = choose|i: int| sole_dash_at(c@, i);
        lemma_sole_dash_unique(c@, first as int, i);
    }
    let start = match parse_u16(&c, 0, first) {
        Err(k) => {
            return Err(PortSpecError::ParseInt(k));
        },
        Ok(v) => v,
    };
    let end = match parse_u16(&c, first + 1, n) {
        Err(k) => {
            return Err(PortSpecError::ParseInt(k));
        },
        Ok(v) => v,
    };
    if start == 0 {
        return Err(PortSpecError::RangeStartsAtZero);
    }
    if start > end {
        return Err(PortSpecError::StartAfterEnd);
    }
    Ok(IntOrRange::Range(start, end))
}

impl IntErrorKind {
    /// How std's `ParseIntError` describes this kind of failure.
    pub open spec fn text(self) -> Seq<char> {
        match self {
            IntErrorKind::Empty => "cannot parse integer from empty string"@,
            IntErrorKind::InvalidDigit => "invalid digit found in string"@,
            IntErrorKind::PosOverflow => "number too large to fit in target type"@,
        }
    }

    /// How std's `ParseIntError` describes this kind of failure.
    pub fn description(&self) -> (r: &'static str)
        ensures
            r@ == self.text(),
    {
        match self {
            IntErrorKind::Empty => "cannot parse integer from empty string",
            IntErrorKind::InvalidDigit => "invalid digit found in string",
            IntErrorKind::PosOverflow => "number too large to fit in target type",
        }
    }
}

impl PortSpecError {
    /// The message shown to the user for this error.
    pub open spec fn message_spec(self) -> Seq<char> {
        match self {
            PortSpecError::RangeFormat => "Port range must be in the START-END format"@,
            PortSpecError::ParseInt(k) => "Error parsing as int: "@ + k.text()
                + ". Usage: --port START-END | --port INT"@,
            PortSpecError::RangeStartsAtZero => "Range cannot start with port 0"@,
            PortSpecError::StartAfterEnd => "START cannot be greater than END"@,
            PortSpecError::PortZero => "Port 0 cannot be scanned"@,
        }
    }

    /// The message shown to the user for this error.
    pub fn message(&self) -> (r: String)
        ensures
            r@ == self.message_spec(),
    {
        match self {
            PortSpecError::RangeFormat => String::from_str("Port range must be in the START-END format"),
            PortSpecError::ParseInt(k) => {
                let mut m = String::from_str("Error parsing as int: ");
                m.append(k.description());
                m.append(". Usage: --port START-END | --port INT");
                m
            },
            PortSpecError::RangeStartsAtZero => String::from_str("Range cannot start with port 0"),
            PortSpecError::StartAfterEnd => String::from_str("START cannot be greater than END"),
            PortSpecError::PortZero => String::from_str("Port 0 cannot be scanned"),
        }
    }
}

impl IntOrRange {
    /// Parses a port selection as `parse_port_spec` does, with the refusal
    /// given as the message shown to the user.
    pub fn from_str(s: &str) -> (r: Result<IntOrRange, String>)
        ensures
            match port_spec_of(s@) {
                Ok(v) => r == Ok::<IntOrRange, String>(v),
                Err(e) => r is Err && r->Err_0@ == e.message_spec(),
            },
    {
        match parse_port_spec(s) {
            Ok(v) => Ok(v),
            Err(e) => Err(e.message()),
        }
    }
}

/// The message shown when the target address cannot be read.
pub open spec fn target_ip_error_message() -> Seq<char> {
    "Error parsing the target ip: invalid IPv4 address syntax. Please input a correct IPv4 address."@
}

/// Validates and parses the target IPv4 address.
pub fn valid_target_ip(s: &str) -> (r: Result<Ipv4Addr, String>)
    ensures
        match ipv4_of_text(s@) {
            Some(a) => r == Ok::<Ipv4Addr, String>(a),
            None => r is Err && r->Err_0@ == target_ip_error_message(),
        },
{
    match parse_ipv4(s) {
        Some(a) => Ok(a),
        None => Err(
            String::from_str(
                "Error parsing the target ip: invalid IPv4 address syntax. Please input a correct IPv4 address.",
            ),
        ),
    }
}

/// `i` is the first position in `interfaces` of an interface named `name`.
pub open spec fn first_named(interfaces: Seq<Interface>, name: Seq<char>, i: int) -> bool {
    &&& 0 <= i < interfaces.len()
    &&& interfaces[i].name@ == name
    &&& forall|j: int| 0 <= j < i ==> interfaces[j].name@ != name
}

/// Finds, among the machine's `interfaces`, the first one named `s`.
pub fn valid_interface(s: &str, interfaces: Vec<Interface>) -> (r: Result<Interface, String>)
    ensures
        forall|i: int| first_named(interfaces@, s@, i) ==> r == Ok::<Interface, String>(interfaces@[i]),
        (forall|i: int| 0 <= i < interfaces@.len() ==> interfaces@[i].name@ != s@) ==> (r is Err
            && r->Err_0@ == "No such interface: "@ + s@),
{
    let ghost all = interfaces@;
    let mut list = interfaces;
    let wanted = String::from_str(s);
    let n = list.len();
    let mut i: usize = 0;
    while i < n
        invariant
            list@ == all,
            all == interfaces@,
            n == all.len(),
            wanted@ == s@,
            i <= n,
            forall|j: int| 0 <= j < i ==> all[j].name@ != s@,
        decreases n - i,
    {
        if list[i].name == wanted {
            assert(first_named(all, s@, i as int));
            assert forall|k: int| first_named(all, s@, k) implies k == i by {
                if k < i {
                } else if k > i {
                    assert(all[i as int].name@ == s@);
                }
            }
            let found = list.remove(i);
            return Ok(found);
        }
        i = i + 1;
    }
    assert forall|k: int| !first_named(all, s@, k) by {
        if 0 <= k < n {
            assert(all[k].name@ != s@);
        }
    }
    let mut message = String::from_str("No such interface: ");
    message.append(s);
    Err(message)
}

/// `t` spells the number `v`: an optional `+`, then at least one decimal
/// digit and nothing else, with the value `v`.
pub open spec fn spells_number(t: Seq<char>, v: int) -> bool {
    &&& unsigned_part(t).len() >= 1
    &&& forall|i: int| 0 <= i < unsigned_part(t).len() ==> is_digit(#[trigger] unsigned_part(t)[i])
    &&& digits_value(unsigned_part(t)) == v
}

/// `t` without its leading `+`, if it has one.
pub open spec fn unsigned_part(t: Seq<char>) -> Seq<char> {
    if t.len() > 0 && t[0] == '+' { t.drop_first() } else { t }
}

/// A number read left to right ends at the value of all its digits, and
/// only digits are read.
proof fn lemma_decimal_digits_read(t: Seq<char>, i: int, v: u16)
    requires
        0 <= i <= t.len(),
        forall|m: int| 0 <= m < i ==> is_digit(#[trigger] t[m]),
        0 <= digits_value(t.subrange(0, i)) <= 0xffff,
        decimal_digits(t.subrange(i, t.len() as int), digits_value(t.subrange(0, i)))
            == Ok::<u16, IntErrorKind>(v),
    ensures
        forall|m: int| 0 <= m < t.len() ==> is_digit(#[trigger] t[m]),
        digits_value(t) == v,
    decreases t.len() - i,
{
    let r = t.subrange(i, t.len() as int);
    if i == t.len() {
        assert(t.subrange(0, i) =~= t);
    } else {
        assert(r[0] == t[i]);
        assert(t.subrange(0, i + 1).drop_last() =~= t.subrange(0, i));
        assert(r.drop_first() =~= t.subrange(i + 1, t.len() as int));
        lemma_decimal_digits_read(t, i + 1, v);
    }
}

/// Whatever `parse_u16_spec` reads as `v` spells `v`.
proof fn lemma_parsed_spells(t: Seq<char>, v: u16)
    requires
        parse_u16_spec(t) == Ok::<u16, IntErrorKind>(v),
    ensures
        spells_number(t, v as int),
{
    let u = unsigned_part(t);
    assert(u.subrange(0, 0) =~= Seq::<char>::empty());
    assert(u.subrange(0, u.len() as int) =~= u);
    lemma_decimal_digits_read(u, 0, v);
    if u.len() == 0 {
        assert(decimal_digits(u, 0) == Ok::<u16, IntErrorKind>(0));
        assert(false);
    }
}

/// A port selection is accepted only as a number, or as two numbers around
/// its one dash: each an optional `+` and decimal digits only, spelling the
/// port, the start or the end. Any other character (a comma, a space, a
/// letter) anywhere in the text makes it refused.
pub proof fn lemma_accepted_selection_spells(s: Seq<char>)
    ensures
        port_spec_of(s) matches Ok(IntOrRange::Int(v)) ==> spells_number(s, v as int),
        port_spec_of(s) matches Ok(IntOrRange::Range(a, b)) ==> exists|i: int|
            0 <= i < s.len() && s[i] == '-' && spells_number(s.subrange(0, i), a as int) && spells_number(
                #[trigger] s.subrange(i + 1, s.len() as int),
                b as int,
            ),
        port_spec_of(s) is Ok ==> forall|i: int|
            0 <= i < s.len() ==> is_digit(#[trigger] s[i]) || s[i] == '+' || s[i] == '-',
{
    if char_free('-', s) {
        if let Ok(v) = parse_u16_spec(s) {
            lemma_parsed_spells(s, v);
            let u = unsigned_part(s);
            assert forall|i: int| 0 <= i < s.len() implies is_digit(#[trigger] s[i]) || s[i] == '+' || s[i]
                == '-' by {
                if s[0] == '+' && i > 0 {
                    assert(s[i] == u[i - 1] && is_digit(u[i - 1]));
                } else if s[0] != '+' {
                    assert(s[i] == u[i] && is_digit(u[i]));
                }
            }
        }
    } else if exists|i: int| sole_dash_at(s, i) {
        let i = choose|i: int| sole_dash_at(s, i);
        let l = s.subrange(0, i);
        let r = s.subrange(i + 1, s.len() as int);
        if let (Ok(a), Ok(b)) = (parse_u16_spec(l), parse_u16_spec(r)) {
            lemma_parsed_spells(l, a);
            lemma_parsed_spells(r, b);
            assert forall|m: int| 0 <= m < s.len() implies is_digit(#[trigger] s[m]) || s[m] == '+' || s[m]
                == '-' by {
                if m < i {
                    let u = unsigned_part(l);
                    assert(s[m] == l[m]);
                    if l[0] == '+' && m > 0 {
                        assert(l[m] == u[m - 1] && is_digit(u[m - 1]));
                    } else if l[0] != '+' {
                        assert(l[m] == u[m] && is_digit(u[m]));
                    }
                } else if m > i {
                    let u = unsigned_part(r);
                    assert(s[m] == r[m - i - 1]);
                    if r[0] == '+' && m - i - 1 > 0 {
                        assert(r[m - i - 1] == u[m - i - 2] && is_digit(u[m - i - 2]));
                    } else if r[0] != '+' {
                        assert(r[m - i - 1] == u[m - i - 1] && is_digit(u[m - i - 1]));
                    }
                }
            }
        }
    }
}

/// The texts of the addresses of an interface, in order.
pub open spec fn interface_ip_texts(i: Interface) -> Seq<Seq<char>> {
    i.ips@.map_values(|a: IpAddr| ip_text(a))
}

/// The line that lists an interface: its name, its hardware address (all
/// zeros when it has none) and its addresses joined by `", "`.
pub open spec fn interface_line_spec(i: Interface) -> Seq<char> {
    "- Interface name: "@ + i.name@ + " | Interface MAC: "@ + mac_text(mac_bytes(i.mac))
        + " | Interface IPs: "@ + joined(interface_ip_texts(i), ", "@)
}

/// The line that lists the interface `i`.
pub fn interface_line(i: &Interface) -> (r: String)
    ensures
        r@ == interface_line_spec(*i),
{
    let ghost texts = interface_ip_texts(*i);
    let mut ips = String::new();
    let n = i.ips.len();
    let mut k: usize = 0;
    while k < n
        invariant
            n == i.ips@.len(),
            k <= n,
            texts == interface_ip_texts(*i),
            ips@ == joined(texts.take(k as int), ", "@),
        decreases n - k,
    {
        let text = i.ips[k].to_text();
        if k > 0 {
            ips.append(", ");
        }
        ips.append(text.as_str());
        assert(texts.take(k + 1).drop_last() =~= texts.take(k as int));
        assert(texts.take(k + 1).last() == texts[k as int]);
        if k == 0 {
            assert(ips@ =~= joined(texts.take(1), ", "@));
        }
        k = k + 1;
    }
    assert(texts.take(n as int) =~= texts);
    let mut r = String::from_str("- Interface name: ");
    r.append(i.name.as_str());
    r.append(" | Interface MAC: ");
    r.append(mac_string(i.mac).as_str());
    r.append(" | Interface IPs: ");
    r.append(ips.as_str());
    r
}

/// The lines that list the interfaces, one per interface, in order.
pub fn interface_lines(list: &Vec<Interface>) -> (r: Vec<String>)
    ensures
        r@.len() == list@.len(),
        forall|k: int| 0 <= k < list@.len() ==> (#[trigger] r@[k])@ == interface_line_spec(list@[k]),
{
    let mut r: Vec<String> = Vec::new();
    let n = list.len();
    let mut k: usize = 0;
    while k < n
        invariant
            n == list@.len(),
            k <= n,
            r@.len() == k,
            forall|j: int| 0 <= j < k ==> (#[trigger] r@[j])@ == interface_line_spec(list@[j]),
        decreases n - k,
    {
        r.push(interface_line(&list[k]));
        k = k + 1;
    }
    r
}

/// The value of a prefix of digits is at most the value of a longer one.
proof fn lemma_digits_value_prefix(t: Seq<char>, j: int, k: int)
    requires
        0 <= j <= k <= t.len(),
        forall|i: int| 0 <= i < t.len() ==> is_digit(#[trigger] t[i]),
    ensures
        0 <= digits_value(t.subrange(0, j)) <= digits_value(t.subrange(0, k)),
    decreases k,
{
    if k > 0 {
        assert(t.subrange(0, k).drop_last() =~= t.subrange(0, k - 1));
        assert(is_digit(t[k - 1]));
        if j < k {
            lemma_digits_value_prefix(t, j, k - 1);
        } else {
            lemma_digits_value_prefix(t, j - 1, k - 1);
        }
    }
}

/// Reading digits left to right from the value of the first `i` of them
/// ends at the value of them all, when that fits in a `u16`.
proof fn lemma_decimal_digits_from(t: Seq<char>, i: int)
    requires
        0 <= i <= t.len(),
        forall|m: int| 0 <= m < t.len() ==> is_digit(#[trigger] t[m]),
        digits_value(t) <= 0xffff,
    ensures
        decimal_digits(t.subrange(i, t.len() as int), digits_value(t.subrange(0, i)))
            == Ok::<u16, IntErrorKind>(digits_value(t) as u16),
    decreases t.len() - i,
{
    let r = t.subrange(i, t.len() as int);
    if i == t.len() {
        assert(t.subrange(0, i) =~= t);
    } else {
        assert(t.subrange(0, i + 1).drop_last() =~= t.subrange(0, i));
        lemma_digits_value_prefix(t, i + 1, t.len() as int);
        assert(t.subrange(0, t.len() as int) =~= t);
        assert(r[0] == t[i] && is_digit(r[0]));
        assert(r.drop_first() =~= t.subrange(i + 1, t.len() as int));
        lemma_decimal_digits_from(t, i + 1);
    }
}

/// The decimal text of a `u16` reads back as that value.
pub proof fn lemma_parse_decimal_text(v: u16)
    ensures
        parse_u16_spec(decimal_text(v as nat)) == Ok::<u16, IntErrorKind>(v),
        char_free('-', decimal_text(v as nat)),
{
    let t = decimal_text(v as nat);
    lemma_decimal_text(v as nat);
    lemma_decimal_digits_from(t, 0);
    assert(t.subrange(0, 0) =~= Seq::<char>::empty());
    assert(t.subrange(0, t.len() as int) =~= t);
    assert(is_digit(t[0]));
    assert forall|i: int| 0 <= i < t.len() implies t[i] != '-' by {
        assert(is_digit(t[i]));
    }
}

/// Every port from 1 up, written in decimal as `to_string` writes it, is
/// read back as that single port.
pub proof fn lemma_port_text_round_trip(v: u16)
    requires
        v >= 1,
    ensures
        port_spec_of(decimal_text(v as nat)) == Ok::<IntOrRange, PortSpecError>(IntOrRange::Int(v)),
{
    lemma_parse_decimal_text(v);
}

/// Every range `a-b` with `1 <= a <= b`, written in decimal, is read back as
/// that range.
pub proof fn lemma_range_text_round_trip(a: u16, b: u16)
    requires
        1 <= a <= b,
    ensures
        port_spec_of(decimal_text(a as nat) + seq!['-'] + decimal_text(b as nat))
            == Ok::<IntOrRange, PortSpecError>(IntOrRange::Range(a, b)),
{
    let ta = decimal_text(a as nat);
    let tb = decimal_text(b as nat);
    let s = ta + seq!['-'] + tb;
    lemma_parse_decimal_text(a);
    lemma_parse_decimal_text(b);
    let d = ta.len() as int;
    assert(s.subrange(0, d) =~= ta);
    assert(s.subrange(d + 1, s.len() as int) =~= tb);
    assert(s[d] == '-');
    assert(sole_dash_at(s, d));
    assert(!char_free('-', s));
    let i = choose|i: int| sole_dash_at(s, i);
    lemma_sole_dash_unique(s, d, i);
}

} // verus!
