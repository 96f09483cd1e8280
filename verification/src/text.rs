//! Reading characters out of text.

use vstd::prelude::*;

verus! {

/// `c` is a decimal digit.
pub open spec fn is_digit(c: char) -> bool {
    '0' <= c <= '9'
}

/// The value of the decimal digit `c`.
pub open spec fn digit_value(c: char) -> int {
    c as int - '0' as int
}

/// `s` holds no `ch`.
pub open spec fn char_free(ch: char, s: Seq<char>) -> bool {
    forall|i: int| 0 <= i < s.len() ==> s[i] != ch
}

/// The characters of `s`.
pub fn chars_of(s: &str) -> (r: Vec<char>)
    ensures
        r@ == s@,
{
    let n = s.unicode_len();
    let mut r: Vec<char> = Vec::new();
    let mut i: usize = 0;
    while i < n
        invariant
            n == s@.len(),
            i <= n,
            r@ == s@.subrange(0, i as int),
        decreases n - i,
    {
        r.push(s.get_char(i));
        i = i + 1;
        assert(r@ =~= s@.subrange(0, i as int));
    }
    assert(r@ =~= s@);
    r
}

/// The position of the first `ch` in `c[from ..]`, or the length of `c` when
/// there is none.
pub fn find_char(c: &Vec<char>, from: usize, ch: char) -> (r: usize)
    requires
        from <= c@.len(),
    ensures
        from <= r <= c@.len(),
        char_free(ch, c@.subrange(from as int, r as int)),
        r < c@.len() ==> c@[r as int] == ch,
{
    let n = c.len();
    let mut i: usize = from;
    while i < n
        invariant
            n == c@.len(),
            from <= i <= n,
            char_free(ch, c@.subrange(from as int, i as int)),
        decreases n - i,
    {
        if c[i] == ch {
            return i;
        }
        i = i + 1;
        assert(char_free(ch, c@.subrange(from as int, i as int))) by {
            assert forall|k: int| 0 <= k < i - from implies c@.subrange(from as int, i as int)[k] != ch by {
                if k < i - 1 - from {
                    assert(c@.subrange(from as int, i - 1)[k] == c@[from + k]);
                }
            }
        }
    }
    i
}

/// The decimal digit character of `d` (below 10).
pub open spec fn digit_char(d: nat) -> char {
    (d + 48) as char
}

/// The value of the decimal digits `t`.
pub open spec fn digits_value(t: Seq<char>) -> int
    decreases t.len(),
{
    if t.len() == 0 {
        0
    } else {
        digits_value(t.drop_last()) * 10 + digit_value(t.last())
    }
}

/// The decimal text of `v`, without leading zeros (`"0"` for zero), as
/// Rust's `to_string` writes it.
pub open spec fn decimal_text(v: nat) -> Seq<char>
    decreases v,
{
    if v < 10 {
        seq![digit_char(v)]
    } else {
        decimal_text(v / 10).push(digit_char(v % 10))
    }
}

/// The decimal text of `v` is made of digits, spells `v`, starts with a
/// nonzero digit unless `v` is zero, and is as short as `v` is small.
pub proof fn lemma_decimal_text(v: nat)
    ensures
        decimal_text(v).len() >= 1,
        forall|i: int| 0 <= i < decimal_text(v).len() ==> is_digit(#[trigger] decimal_text(v)[i]),
        digits_value(decimal_text(v)) == v,
        v >= 1 ==> decimal_text(v)[0] != '0',
        v < 10 ==> decimal_text(v).len() == 1,
        v < 100 ==> decimal_text(v).len() <= 2,
        v < 1000 ==> decimal_text(v).len() <= 3,
    decreases v,
{
    if v < 10 {
        let t = decimal_text(v);
        assert(t.drop_last() =~= Seq::<char>::empty());
        assert(digits_value(Seq::<char>::empty()) == 0);
    } else {
        lemma_decimal_text(v / 10);
        let t = decimal_text(v);
        assert(t.drop_last() =~= decimal_text(v / 10));
        assert(t[0] == decimal_text(v / 10)[0]);
    }
}

/// The one-character text of the decimal digit `d`.
fn digit_str(d: u32) -> (r: &'static str)
    requires
        d < 10,
    ensures
        r@ == seq![digit_char(d as nat)],
{
    if d == 0 {
        proof {
            reveal_strlit("0");
        }
        "0"

    } else if d == 1 {
        proof {
            reveal_strlit("1");
        }
        "1"

    } else if d == 2 {
        proof {
            reveal_strlit("2");
        }
        "2"

    } else if d == 3 {
        proof {
            reveal_strlit("3");
        }
        "3"

    } else if d == 4 {
        proof {
            reveal_strlit("4");
        }
        "4"

    } else if d == 5 {
        proof {
            reveal_strlit("5");
        }
        "5"

    } else if d == 6 {
        proof {
            reveal_strlit("6");
        }
        "6"

    } else if d == 7 {
        proof {
            reveal_strlit("7");
        }
        "7"

    } else if d == 8 {
        proof {
            reveal_strlit("8");
        }
        "8"
    } else {
        proof {
            reveal_strlit("9");
        }
        "9"
    }
}

/// Writes `v` in decimal, without leading zeros.
pub fn decimal_string(v: u32) -> (r: String)
    ensures
        r@ == decimal_text(v as nat),
    decreases v,
{
    if v < 10 {
        String::from_str(digit_str(v))
    } else {
        let mut r = decimal_string(v / 10);
        r.append(digit_str(v % 10));
        r
    }
}

/// The lowercase hexadecimal digit character of `d` (below 16).
pub open spec fn hex_digit(d: nat) -> char {
    if d < 10 { (d + 48) as char } else { (d - 10 + 97) as char }
}

/// The two lowercase hexadecimal digits of `b`, as `{:02x}` writes them.
pub open spec fn hex_byte_text(b: u8) -> Seq<char> {
    seq![hex_digit((b / 16) as nat), hex_digit((b % 16) as nat)]
}

/// The texts of `list` joined with `sep` between neighbours, as
/// `[String]::join` joins them.
pub open spec fn joined(list: Seq<Seq<char>>, sep: Seq<char>) -> Seq<char>
    decreases list.len(),
{
    if list.len() == 0 {
        Seq::empty()
    } else if list.len() == 1 {
        list[0]
    } else {
        joined(list.drop_last(), sep) + sep + list.last()
    }
}

/// The one-character text of the hexadecimal digit `d`.
fn hex_digit_str(d: u8) -> (r: &'static str)
    requires
        d < 16,
    ensures
        r@ == seq![hex_digit(d as nat)],
{
    if d == 0 {
        proof {
            reveal_strlit("0");
        }
        "0"
    } else if d == 1 {
        proof {
            reveal_strlit("1");
        }
        "1"
    } else if d == 2 {
        proof {
            reveal_strlit("2");
        }
        "2"
    } else if d == 3 {
        proof {
            reveal_strlit("3");
        }
        "3"
    } else if d == 4 {
        proof {
            reveal_strlit("4");
        }
        "4"
    } else if d == 5 {
        proof {
            reveal_strlit("5");
        }
        "5"
    } else if d == 6 {
        proof {
            reveal_strlit("6");
        }
        "6"
    } else if d == 7 {
        proof {
            reveal_strlit("7");
        }
        "7"
    } else if d == 8 {
        proof {
            reveal_strlit("8");
        }
        "8"
    } else if d == 9 {
        proof {
            reveal_strlit("9");
        }
        "9"
    } else if d == 10 {
        proof {
            reveal_strlit("a");
        }
        "a"
    } else if d == 11 {
        proof {
            reveal_strlit("b");
        }
        "b"
    } else if d == 12 {
        proof {
            reveal_strlit("c");
        }
        "c"
    } else if d == 13 {
        proof {
            reveal_strlit("d");
        }
        "d"
    } else if d == 14 {
        proof {
            reveal_strlit("e");
        }
        "e"
    } else {
        proof {
            reveal_strlit("f");
        }
        "f"
    }
}

/// Appends the two lowercase hexadecimal digits of `b` to `s`.
pub fn push_hex_byte(s: &mut String, b: u8)
    ensures
        final(s)@ == old(s)@ + hex_byte_text(b),
{
    s.append(hex_digit_str(b / 16));
    s.append(hex_digit_str(b % 16));
}

} // verus!
