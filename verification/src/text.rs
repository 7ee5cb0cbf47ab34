//! Reading and writing short pieces of text: numbers, IPv4 addresses, columns.

use vstd::prelude::*;
use vstd::slice::*;
use vstd::string::*;

verus! {

/// The characters of a string, one by one.
pub fn chars_of(s: &str) -> (r: Vec<char>)
    ensures
        r@ == s@,
{
    let mut out: Vec<char> = Vec::new();
    for c in it: s.chars()
        invariant
            out@ == it.seq().take(it.index()),
            it.seq() == s@,
    {
        out.push(c);
        proof {
            assert(it.seq().take(it.index() + 1) =~= it.seq().take(it.index()).push(c));
        }
    }
    proof {
        assert(s@.take(s@.len() as int) =~= s@);
    }
    out
}

/// Whether two strings hold the same characters.
pub fn same_text(a: &str, b: &str) -> (r: bool)
    ensures
        r == (a@ == b@),
{
    a.to_owned() == b.to_owned()
}

// ── decimal numbers ─────────────────────────────────────────────────────────

/// The character of one decimal digit.
pub open spec fn digit_char(d: int) -> char {
    ('0' as int + d) as char
}

/// A number in decimal, without leading zeros.
pub open spec fn decimal(n: nat) -> Seq<char>
    decreases n,
{
    if n < 10 {
        seq![digit_char(n as int)]
    } else {
        decimal(n / 10).push(digit_char((n % 10) as int))
    }
}

/// Appends one decimal digit.
fn append_digit(out: &mut String, d: u64)
    requires
        d < 10,
    ensures
        final(out)@ == old(out)@.push(digit_char(d as int)),
{
    proof {
        reveal_strlit("0");
        reveal_strlit("1");
        reveal_strlit("2");
        reveal_strlit("3");
        reveal_strlit("4");
        reveal_strlit("5");
        reveal_strlit("6");
        reveal_strlit("7");
        reveal_strlit("8");
        reveal_strlit("9");
    }
    let digit: &str = if d == 0 {
        "0"
    } else if d == 1 {
        "1"
    } else if d == 2 {
        "2"
    } else if d == 3 {
        "3"
    } else if d == 4 {
        "4"
    } else if d == 5 {
        "5"
    } else if d == 6 {
        "6"
    } else if d == 7 {
        "7"
    } else if d == 8 {
        "8"
    } else {
        "9"
    };
    assert(digit@ =~= seq![digit_char(d as int)]);
    out.append(digit);
    assert(out@ =~= old(out)@.push(digit_char(d as int)));
}

/// A number in decimal is made of digits, starts with no zero unless it is zero itself, and reads back as
/// the number: the last digit counts ones, and what stands before it counts tens.
pub proof fn a_number_reads_back(n: nat)
    ensures
        all_digits(decimal(n)),
        decimal(n).len() > 0,
        digits_value(decimal(n)) == n,
        decimal(n)[0] == '0' ==> n == 0 && decimal(n).len() == 1,
        decimal(n).last() as int == '0' as int + n % 10,
        n >= 10 ==> decimal(n).drop_last() == decimal(n / 10),
        n < 10 ==> decimal(n).len() == 1,
    decreases n,
{
    if n >= 10 {
        a_number_reads_back(n / 10);
        assert(decimal(n).drop_last() =~= decimal(n / 10));
        assert(decimal(n)[0] == decimal(n / 10)[0]);
        assert forall|i: int| 0 <= i < decimal(n).len() implies is_digit(#[trigger] decimal(n)[i]) by {
            if i < decimal(n / 10).len() {
                assert(decimal(n)[i] == decimal(n / 10)[i]);
            }
        }
    } else {
        assert(decimal(n).drop_last() =~= Seq::<char>::empty());
        assert(digits_value(decimal(n).drop_last()) == 0);
    }
}

/// Ten times itself a number of times.
pub open spec fn tens(times: nat) -> nat
    decreases times,
{
    if times == 0 {
        1
    } else {
        10 * tens((times - 1) as nat)
    }
}

/// A number below ten times itself so often has no more digits than that.
pub proof fn a_number_has_few_digits(n: nat, digits: nat)
    requires
        digits > 0,
        n < tens(digits),
    ensures
        decimal(n).len() <= digits,
    decreases digits,
{
    if n >= 10 {
        reveal_with_fuel(tens, 2);
        assert(digits > 1);
        a_number_has_few_digits(n / 10, (digits - 1) as nat);
    }
}

/// A signed number is written as its size, with a minus sign before it where it is negative.
pub proof fn a_minus_sign_is_for_negative_numbers(n: nat)
    ensures
        signed_decimal(n as int) == decimal(n),
        n > 0 ==> signed_decimal(-n) == seq!['-'] + decimal(n),
{
    reveal_strlit("-");
    assert("-"@ =~= seq!['-']);
}

/// Appends a number in decimal.
pub fn append_decimal(out: &mut String, n: u64)
    ensures
        final(out)@ == old(out)@ + decimal(n as nat),
    decreases n,
{
    if n >= 10 {
        append_decimal(out, n / 10);
    }
    append_digit(out, n % 10);
    assert(out@ =~= old(out)@ + decimal(n as nat));
}

/// A signed number in decimal, with a minus sign where it is negative.
pub open spec fn signed_decimal(n: int) -> Seq<char> {
    if n < 0 {
        "-"@ + decimal((-n) as nat)
    } else {
        decimal(n as nat)
    }
}

/// Appends a signed number in decimal.
pub fn append_signed(out: &mut String, n: i64)
    ensures
        final(out)@ == old(out)@ + signed_decimal(n as int),
{
    if n < 0 {
        out.append("-");
        let magnitude: i128 = -(n as i128);
        append_decimal(out, magnitude as u64);
        assert(out@ =~= old(out)@ + signed_decimal(n as int));
    } else {
        append_decimal(out, n as u64);
    }
}

/// Whether a character is one of `0` to `9`.
pub open spec fn is_digit(c: char) -> bool {
    '0' <= c <= '9'
}

/// The value of a decimal digit.
pub open spec fn digit_value(c: char) -> int {
    c as int - '0' as int
}

/// The number that a run of decimal digits stands for, leading zeros and all.
pub open spec fn digits_value(s: Seq<char>) -> nat
    decreases s.len(),
{
    if s.len() == 0 {
        0
    } else {
        (digits_value(s.drop_last()) * 10 + digit_value(s.last())) as nat
    }
}

/// Whether every character is a decimal digit.
pub open spec fn all_digits(s: Seq<char>) -> bool {
    forall|i: int| 0 <= i < s.len() ==> is_digit(#[trigger] s[i])
}

/// What a run of digits means as a number from 0 to 255.
pub open spec fn byte_digits(s: Seq<char>) -> Option<u8> {
    if s.len() > 0 && all_digits(s) && digits_value(s) <= 255 {
        Some(digits_value(s) as u8)
    } else {
        None
    }
}

/// What a text means as a number from 0 to 255: an optional `+`, then at least one digit.
pub open spec fn byte_text(s: Seq<char>) -> Option<u8> {
    if s.len() > 0 && s[0] == '+' {
        byte_digits(s.skip(1))
    } else {
        byte_digits(s)
    }
}

proof fn lemma_digits_value_grows(s: Seq<char>, n: int)
    requires
        0 <= n <= s.len(),
        all_digits(s),
    ensures
        digits_value(s.take(n)) <= digits_value(s),
    decreases s.len() - n,
{
    if n < s.len() {
        lemma_digits_value_grows(s, n + 1);
        assert(s.take(n + 1).drop_last() =~= s.take(n));
        assert(s.take(n + 1).last() == s[n]);
        assert(is_digit(s[n]));
    } else {
        assert(s.take(n) =~= s);
    }
}

/// A byte is read from its decimal text, whatever zeros stand before it, and whether or not a plus sign
/// stands before those. A number that no byte can hold is not read, nor is a text with anything but
/// digits in it, nor one without any.
pub proof fn a_byte_is_read_from_its_digits(zeros: nat, n: nat, other: Seq<char>, i: int)
    ensures
        ({
            let digits = Seq::new(zeros, |k: int| '0') + decimal(n);
            let read = if n <= 255 {
                Some(n as u8)
            } else {
                None
            };
            &&& byte_text(digits) == read
            &&& byte_text(seq!['+'] + digits) == read
        }),
        0 <= i < other.len() && !('0' <= other[i] <= '9') && !(i == 0 && other[i] == '+')
            ==> byte_text(other) is None,
        byte_text(Seq::empty()) is None,
        byte_text(seq!['+']) is None,
{
    let digits = Seq::new(zeros, |k: int| '0') + decimal(n);
    a_number_reads_back(n);
    lemma_leading_zeros(zeros, decimal(n));
    assert forall|k: int| 0 <= k < digits.len() implies is_digit(#[trigger] digits[k]) by {
        if k >= zeros {
            assert(digits[k] == decimal(n)[k - zeros]);
        }
    }
    assert((seq!['+'] + digits).skip(1) =~= digits);
    assert(digits[0] != '+') by {
        assert(is_digit(digits[0]));
    }
    assert(seq!['+'].skip(1) =~= Seq::<char>::empty());
    if 0 <= i < other.len() && !is_digit(other[i]) && !(i == 0 && other[i] == '+') {
        if other[0] == '+' {
            assert(other.skip(1)[i - 1] == other[i]);
            assert(!all_digits(other.skip(1)));
        } else {
            assert(!all_digits(other));
        }
    }
}

proof fn lemma_leading_zeros(zeros: nat, s: Seq<char>)
    ensures
        digits_value(Seq::new(zeros, |k: int| '0') + s) == digits_value(s),
    decreases s.len(), zeros,
{
    let lead = Seq::new(zeros, |k: int| '0');
    if s.len() > 0 {
        lemma_leading_zeros(zeros, s.drop_last());
        assert((lead + s).drop_last() =~= lead + s.drop_last());
        assert((lead + s).last() == s.last());
    } else if zeros > 0 {
        let fewer = Seq::new((zeros - 1) as nat, |k: int| '0');
        lemma_leading_zeros((zeros - 1) as nat, s);
        assert((lead + s).drop_last() =~= fewer + s);
        assert((lead + s).last() == '0');
    } else {
        assert(lead + s =~= s);
    }
}

/// Reads a number from 0 to 255.
pub fn parse_byte(s: &str) -> (r: Option<u8>)
    ensures
        r == byte_text(s@),
{
    let chars = chars_of(s);
    byte_of_chars(chars.as_slice())
}

fn byte_of_chars(s: &[char]) -> (r: Option<u8>)
    ensures
        r == byte_text(s@),
{
    let start: usize = if s.len() > 0 && s[0] == '+' {
        1
    } else {
        0
    };
    let ghost digits = s@.skip(start as int);
    assert(start == 0 ==> digits =~= s@);
    if start == s.len() {
        return None;
    }
    let mut value: u32 = 0;
    let mut i: usize = start;
    while i < s.len()
        invariant
            start <= i <= s.len(),
            start <= 1,
            digits == s@.skip(start as int),
            byte_text(s@) == byte_digits(digits),
            forall|k: int| 0 <= k < i - start ==> is_digit(#[trigger] digits[k]),
            value == digits_value(digits.take(i - start)),
            value <= 255,
        decreases s.len() - i,
    {
        let c = s[i];
        assert(c == digits[i - start]);
        if c < '0' || c > '9' {
            assert(!is_digit(digits[i - start]));
            return None;
        }
        value = value * 10 + (c as u32 - '0' as u32);
        proof {
            assert(digits.take(i - start + 1).drop_last() =~= digits.take(i - start));
        }
        if value > 255 {
            proof {
                if all_digits(digits) {
                    lemma_digits_value_grows(digits, i - start + 1);
                }
            }
            return None;
        }
        i += 1;
    }
    assert(digits.take(i - start) =~= digits);
    Some(value as u8)
}

/// The first place of a character in a text.
pub open spec fn is_first_index(s: Seq<char>, c: char, i: int) -> bool {
    &&& 0 <= i < s.len()
    &&& s[i] == c
    &&& forall|k: int| 0 <= k < i ==> s[k] != c
}

/// The first place of a character in a text, if it is there at all.
fn find_char(s: &[char], c: char) -> (r: Option<usize>)
    ensures
        match r {
            Some(i) => is_first_index(s@, c, i as int),
            None => !s@.contains(c),
        },
{
    let mut i: usize = 0;
    while i < s.len()
        invariant
            0 <= i <= s.len(),
            forall|k: int| 0 <= k < i ==> s@[k] != c,
        decreases s.len() - i,
    {
        if s[i] == c {
            return Some(i);
        }
        i += 1;
    }
    None
}

/// A text cut in two at the first place of a character, which goes.
pub open spec fn cut(s: Seq<char>, c: char) -> Option<(Seq<char>, Seq<char>)> {
    if exists|i: int| is_first_index(s, c, i) {
        let i = choose|i: int| is_first_index(s, c, i);
        Some((s.take(i), s.skip(i + 1)))
    } else {
        None
    }
}

/// A text is cut at the first place of a character: what comes before it, which does not have the
/// character, is one part, and all that comes after it is the other. A text without the character is not
/// cut.
pub proof fn a_text_is_cut_once(head: Seq<char>, c: char, tail: Seq<char>)
    requires
        !head.contains(c),
    ensures
        cut(head + seq![c] + tail, c) == Some((head, tail)),
        cut(head, c) is None,
{
    let s = head + seq![c] + tail;
    let n = head.len() as int;
    assert forall|k: int| 0 <= k < n implies s[k] != c by {
        assert(head.contains(head[k]));
    }
    assert(is_first_index(s, c, n));
    let i = choose|i: int| is_first_index(s, c, i);
    assert(i == n);
    assert(s.take(n) =~= head);
    assert(s.skip(n + 1) =~= tail);
    assert forall|i: int| !is_first_index(head, c, i) by {
        if is_first_index(head, c, i) {
            assert(head.contains(head[i]));
        }
    }
}

/// Cuts a text in two at the first place of a character.
pub fn split_once<'a>(s: &'a str, c: char) -> (r: Option<(&'a str, &'a str)>)
    ensures
        match r {
            Some((head, tail)) => cut(s@, c) == Some((head@, tail@)),
            None => cut(s@, c) is None,
        },
{
    let chars = chars_of(s);
    match find_char(chars.as_slice(), c) {
        Some(i) => {
            let n = chars.len();
            assert(i < n);
            let head = s.substring_char(0, i);
            let tail = s.substring_char(i + 1, n);
            proof {
                let j = choose|j: int| is_first_index(s@, c, j);
                assert(is_first_index(s@, c, i as int));
                assert(j == i);
                assert(head@ =~= s@.take(i as int));
                assert(tail@ =~= s@.skip(i + 1));
            }
            Some((head, tail))
        },
        None => {
            assert forall|i: int| !is_first_index(s@, c, i) by {
                if is_first_index(s@, c, i) {
                    assert(s@.contains(s@[i]));
                }
            }
            None
        },
    }
}

// ── IPv4 addresses ──────────────────────────────────────────────────────────

/// An address in dotted decimal: its four bytes, the highest first.
pub open spec fn dotted(ip: u32) -> Seq<char> {
    decimal((ip / 0x100_0000) as nat) + "."@ + decimal((ip / 0x1_0000 % 0x100) as nat) + "."@
        + decimal((ip / 0x100 % 0x100) as nat) + "."@ + decimal((ip % 0x100) as nat)
}

/// The address of four bytes, the highest first.
pub open spec fn from_bytes(a: u8, b: u8, c: u8, d: u8) -> int {
    a * 0x100_0000 + b * 0x1_0000 + c * 0x100 + d
}

/// An address in dotted decimal is its four bytes in decimal, the highest first, with dots between them.
pub proof fn an_address_is_its_four_bytes(ip: u32, a: u8, b: u8, c: u8, d: u8)
    requires
        ip == from_bytes(a, b, c, d),
    ensures
        dotted(ip) == decimal(a as nat) + "."@ + decimal(b as nat) + "."@ + decimal(c as nat) + "."@
            + decimal(d as nat),
{
    lemma_dotted_is_quad(ip, a, b, c, d);
    lemma_join_with_dots(decimal(a as nat), decimal(b as nat), decimal(c as nat), decimal(d as nat));
}

/// Appends an address in dotted decimal.
pub fn append_dotted(out: &mut String, ip: u32)
    ensures
        final(out)@ == old(out)@ + dotted(ip),
        forall|a: u8, b: u8, c: u8, d: u8|
            ip == #[trigger] from_bytes(a, b, c, d) ==> final(out)@ == old(out)@ + (decimal(a as nat)
                + "."@ + decimal(b as nat) + "."@ + decimal(c as nat) + "."@ + decimal(d as nat)),
{
    append_decimal(out, (ip / 0x100_0000) as u64);
    out.append(".");
    append_decimal(out, (ip / 0x1_0000 % 0x100) as u64);
    out.append(".");
    append_decimal(out, (ip / 0x100 % 0x100) as u64);
    out.append(".");
    append_decimal(out, (ip % 0x100) as u64);
    assert(out@ =~= old(out)@ + dotted(ip));
    proof {
        assert forall|a: u8, b: u8, c: u8, d: u8|
            ip == #[trigger] from_bytes(a, b, c, d) implies out@ == old(out)@ + (decimal(a as nat)
            + "."@ + decimal(b as nat) + "."@ + decimal(c as nat) + "."@ + decimal(d as nat)) by {
            an_address_is_its_four_bytes(ip, a, b, c, d);
        }
    }
}

/// A byte in decimal has one to three digits, none of them a leading zero.
proof fn lemma_byte_decimal(v: nat)
    requires
        v < 256,
    ensures
        v < 10 ==> decimal(v) == seq![digit_char(v as int)],
        10 <= v < 100 ==> decimal(v) == seq![
            digit_char((v / 10) as int),
            digit_char((v % 10) as int),
        ],
        100 <= v ==> decimal(v) == seq![
            digit_char((v / 100) as int),
            digit_char((v / 10 % 10) as int),
            digit_char((v % 10) as int),
        ],
        all_digits(decimal(v)),
        1 <= decimal(v).len() <= 3,
{
    reveal_with_fuel(decimal, 3);
    if v < 10 {
    } else if v < 100 {
        assert(decimal(v) =~= seq![digit_char((v / 10) as int), digit_char((v % 10) as int)]);
    } else {
        assert(v / 10 / 10 == v / 100);
        assert(decimal(v) =~= seq![
            digit_char((v / 100) as int),
            digit_char((v / 10 % 10) as int),
            digit_char((v % 10) as int),
        ]);
    }
}

/// Reads one byte of an address: decimal, no sign, no leading zero.
fn parse_octet(s: &[char]) -> (r: Option<u8>)
    ensures
        match r {
            Some(v) => s@ == decimal(v as nat),
            None => forall|v: u8| s@ != decimal(v as nat),
        },
{
    proof {
        assert forall|v: u8| s@ == decimal(v as nat) implies all_digits(s@) && 1 <= s@.len() <= 3
            && (s@.len() == 1 || s@[0] != '0') && v == digits_value(s@) by {
            lemma_byte_decimal(v as nat);
            reveal_with_fuel(digits_value, 4);
        }
    }
    if s.len() == 0 || s.len() > 3 || (s.len() > 1 && s[0] == '0') {
        return None;
    }
    if s[0] < '0' || s[0] > '9' {
        assert(!is_digit(s@[0]));
        return None;
    }
    let mut value: u32 = s[0] as u32 - '0' as u32;
    if s.len() > 1 {
        if s[1] < '0' || s[1] > '9' {
            assert(!is_digit(s@[1]));
            return None;
        }
        value = value * 10 + (s[1] as u32 - '0' as u32);
    }
    if s.len() > 2 {
        if s[2] < '0' || s[2] > '9' {
            assert(!is_digit(s@[2]));
            return None;
        }
        value = value * 10 + (s[2] as u32 - '0' as u32);
    }
    assert(value == digits_value(s@)) by {
        reveal_with_fuel(digits_value, 4);
    }
    if value > 255 {
        return None;
    }
    proof {
        lemma_byte_decimal(value as nat);
        assert(s@ =~= decimal(value as nat));
    }
    Some(value as u8)
}

/// Splits a text at its first dot, where the part before it holds digits alone.
proof fn lemma_split_at_dot(x: Seq<char>, y: Seq<char>)
    requires
        all_digits(x),
    ensures
        (x + "."@ + y).contains('.'),
        forall|i: int| is_first_index(x + "."@ + y, '.', i) ==> i == x.len(),
        (x + "."@ + y).take(x.len() as int) == x,
        (x + "."@ + y).skip(x.len() as int + 1) == y,
{
    reveal_strlit(".");
    let s = x + "."@ + y;
    assert(s[x.len() as int] == '.');
    assert(s.take(x.len() as int) =~= x);
    assert(s.skip(x.len() as int + 1) =~= y);
    assert forall|i: int| is_first_index(s, '.', i) implies i == x.len() by {
        if i < x.len() {
            assert(s[i] == x[i]);
            assert(is_digit(x[i]));
        }
    }
}

/// The part of a text before its first dot as a byte, and the rest of the text.
fn take_octet<'a>(s: &'a [char]) -> (r: Option<(u8, &'a [char])>)
    ensures
        match r {
            Some((v, rest)) => s@ == decimal(v as nat) + "."@ + rest@,
            None => forall|v: u8, rest: Seq<char>| s@ != #[trigger] (decimal(v as nat) + "."@ + rest),
        },
{
    proof {
        reveal_strlit(".");
        assert forall|v: u8, rest: Seq<char>| s@ == #[trigger] (decimal(v as nat) + "."@ + rest)
            implies s@.contains('.') && forall|i: int|
            is_first_index(s@, '.', i) ==> s@.take(i) == decimal(v as nat) by {
            lemma_byte_decimal(v as nat);
            lemma_split_at_dot(decimal(v as nat), rest);
        }
    }
    match find_char(s, '.') {
        None => None,
        Some(i) => {
            let head = slice_subrange(s, 0, i);
            assert(head@ =~= s@.take(i as int));
            match parse_octet(head) {
                None => None,
                Some(v) => {
                    assert(i < s.len());
                    let rest = slice_subrange(s, i + 1, s.len());
                    assert(s@ =~= decimal(v as nat) + "."@ + rest@);
                    Some((v, rest))
                },
            }
        },
    }
}

/// A text that starts with a byte and a dot does so in one way only.
proof fn lemma_dotted_parts(s: Seq<char>, v: u8, rest: Seq<char>)
    requires
        s == decimal(v as nat) + "."@ + rest,
    ensures
        forall|w: u8, other: Seq<char>| s == #[trigger] (decimal(w as nat) + "."@ + other) ==> other == rest,
{
    assert forall|w: u8, other: Seq<char>| s == #[trigger] (decimal(w as nat) + "."@ + other)
        implies other == rest by {
        lemma_byte_decimal(v as nat);
        lemma_byte_decimal(w as nat);
        lemma_split_at_dot(decimal(v as nat), rest);
        lemma_split_at_dot(decimal(w as nat), other);
        reveal_strlit(".");
        assert(s[decimal(v as nat).len() as int] == '.');
        assert(s[decimal(w as nat).len() as int] == '.');
        assert forall|k: int| 0 <= k < decimal(v as nat).len() implies s[k] != '.' by {
            assert(is_digit(decimal(v as nat)[k]));
        }
        assert(is_first_index(s, '.', decimal(v as nat).len() as int));
    }
}

/// Four bytes in decimal, with dots between them.
spec fn quad(a: u8, b: u8, c: u8, d: u8) -> Seq<char> {
    decimal(a as nat) + "."@ + (decimal(b as nat) + "."@ + (decimal(c as nat) + "."@ + decimal(
        d as nat,
    )))
}

/// Reads four bytes in decimal, with dots between them.
fn parse_quad(s: &[char]) -> (r: Option<(u8, u8, u8, u8)>)
    ensures
        match r {
            Some((a, b, c, d)) => s@ == quad(a, b, c, d),
            None => forall|a: u8, b: u8, c: u8, d: u8| s@ != #[trigger] quad(a, b, c, d),
        },
{
    let (a, after_a) = match take_octet(s) {
        Some(p) => p,
        None => return None,
    };
    proof {
        lemma_dotted_parts(s@, a, after_a@);
    }
    let (b, after_b) = match take_octet(after_a) {
        Some(p) => p,
        None => return None,
    };
    proof {
        lemma_dotted_parts(after_a@, b, after_b@);
    }
    let (c, after_c) = match take_octet(after_b) {
        Some(p) => p,
        None => return None,
    };
    proof {
        lemma_dotted_parts(after_b@, c, after_c@);
    }
    match parse_octet(after_c) {
        Some(d) => Some((a, b, c, d)),
        None => None,
    }
}

proof fn lemma_dotted_is_quad(ip: u32, a: u8, b: u8, c: u8, d: u8)
    requires
        ip == a * 0x100_0000 + b * 0x1_0000 + c * 0x100 + d,
    ensures
        dotted(ip) == quad(a, b, c, d),
{
    assert(ip / 0x100_0000 == a && ip / 0x1_0000 % 0x100 == b && ip / 0x100 % 0x100 == c && ip
        % 0x100 == d) by (bit_vector)
        requires
            ip == a * 0x100_0000 + b * 0x1_0000 + c * 0x100 + d,
    ;
    lemma_join_with_dots(decimal(a as nat), decimal(b as nat), decimal(c as nat), decimal(d as nat));
}

proof fn lemma_join_with_dots(a: Seq<char>, b: Seq<char>, c: Seq<char>, d: Seq<char>)
    ensures
        a + "."@ + b + "."@ + c + "."@ + d == a + "."@ + (b + "."@ + (c + "."@ + d)),
{
    assert(a + "."@ + b + "."@ + c + "."@ + d =~= a + "."@ + (b + "."@ + (c + "."@ + d)));
}

/// Dotted decimal takes up fifteen characters at most.
pub proof fn dotted_is_short(ip: u32)
    ensures
        dotted(ip).len() <= 15,
{
    reveal_with_fuel(tens, 4);
    assert(ip / 0x100_0000 < 0x100) by (bit_vector);
    a_number_has_few_digits((ip / 0x100_0000) as nat, 3);
    a_number_has_few_digits((ip / 0x1_0000 % 0x100) as nat, 3);
    a_number_has_few_digits((ip / 0x100 % 0x100) as nat, 3);
    a_number_has_few_digits((ip % 0x100) as nat, 3);
    reveal_strlit(".");
}

/// Dotted decimal is made of digits and dots.
pub proof fn dotted_is_digits_and_dots(ip: u32, i: int)
    requires
        0 <= i < dotted(ip).len(),
    ensures
        is_digit(dotted(ip)[i]) || dotted(ip)[i] == '.',
        dotted(ip).len() > 0,
        is_digit(dotted(ip)[0]),
        is_digit(dotted(ip).last()),
{
    let a = decimal((ip / 0x100_0000) as nat);
    let b = decimal((ip / 0x1_0000 % 0x100) as nat);
    let c = decimal((ip / 0x100 % 0x100) as nat);
    let d = decimal((ip % 0x100) as nat);
    a_number_reads_back((ip / 0x100_0000) as nat);
    a_number_reads_back((ip / 0x1_0000 % 0x100) as nat);
    a_number_reads_back((ip / 0x100 % 0x100) as nat);
    a_number_reads_back((ip % 0x100) as nat);
    reveal_strlit(".");
    let s = dotted(ip);
    let na = a.len() as int;
    let nb = na + 1 + b.len();
    let nc = nb + 1 + c.len();
    assert(s[0] == a[0]);
    assert(s.last() == d.last());
    if i < na {
        assert(s[i] == a[i]);
    } else if na < i < nb {
        assert(s[i] == b[i - na - 1]);
    } else if nb < i < nc {
        assert(s[i] == c[i - nb - 1]);
    } else if i > nc {
        assert(s[i] == d[i - nc - 1]);
    }
}

/// The address that a text is the dotted decimal of, if there is one.
pub open spec fn address_of(s: Seq<char>) -> Option<u32> {
    if exists|ip: u32| s == #[trigger] dotted(ip) {
        Some(choose|ip: u32| s == #[trigger] dotted(ip))
    } else {
        None
    }
}

/// Reads an IPv4 address in dotted decimal: four numbers up to 255, none with a leading zero.
pub fn parse_ipv4(s: &str) -> (r: Option<u32>)
    ensures
        r == address_of(s@),
        match r {
            Some(ip) => s@ == dotted(ip),
            None => forall|ip: u32| s@ != #[trigger] dotted(ip),
        },
{
    let chars = chars_of(s);
    match parse_quad(chars.as_slice()) {
        Some((a, b, c, d)) => {
            let ip: u32 = a as u32 * 0x100_0000 + b as u32 * 0x1_0000 + c as u32 * 0x100 + d as u32;
            proof {
                lemma_dotted_is_quad(ip, a, b, c, d);
                address_reads_back(ip);
            }
            Some(ip)
        },
        None => {
            proof {
                assert forall|ip: u32| s@ != #[trigger] dotted(ip) by {
                    let _ = lemma_bytes_of(ip);
                }
            }
            None
        },
    }
}

/// An address is its four bytes, in text as in value.
proof fn lemma_bytes_of(ip: u32) -> (r: (u8, u8, u8, u8))
    ensures
        ip == r.0 * 0x100_0000 + r.1 * 0x1_0000 + r.2 * 0x100 + r.3,
        dotted(ip) == quad(r.0, r.1, r.2, r.3),
{
    let a = (ip / 0x100_0000) as u8;
    let b = (ip / 0x1_0000 % 0x100) as u8;
    let c = (ip / 0x100 % 0x100) as u8;
    let d = (ip % 0x100) as u8;
    assert(ip / 0x100_0000 < 0x100 && ip == (ip / 0x100_0000) * 0x100_0000 + (ip / 0x1_0000 % 0x100)
        * 0x1_0000 + (ip / 0x100 % 0x100) * 0x100 + ip % 0x100) by (bit_vector);
    lemma_dotted_is_quad(ip, a, b, c, d);
    (a, b, c, d)
}

proof fn lemma_quad_injective(a: u8, b: u8, c: u8, d: u8, e: u8, f: u8, g: u8, h: u8)
    requires
        quad(a, b, c, d) == quad(e, f, g, h),
    ensures
        a == e && b == f && c == g && d == h,
{
    let x3 = decimal(c as nat) + "."@ + decimal(d as nat);
    let x2 = decimal(b as nat) + "."@ + x3;
    let y3 = decimal(g as nat) + "."@ + decimal(h as nat);
    let y2 = decimal(f as nat) + "."@ + y3;
    lemma_octet_prefix(a, x2, e, y2);
    lemma_octet_prefix(b, x3, f, y3);
    lemma_octet_prefix(c, decimal(d as nat), g, decimal(h as nat));
    lemma_byte_decimal_injective(d, h);
}

/// No two addresses read the same: dotted decimal can be read back.
pub proof fn dotted_is_injective(x: u32, y: u32)
    requires
        dotted(x) == dotted(y),
    ensures
        x == y,
{
    let p = lemma_bytes_of(x);
    let q = lemma_bytes_of(y);
    lemma_quad_injective(p.0, p.1, p.2, p.3, q.0, q.1, q.2, q.3);
}

/// An address written in dotted decimal reads back as itself.
pub proof fn address_reads_back(ip: u32)
    ensures
        address_of(dotted(ip)) == Some(ip),
{
    let found = choose|other: u32| dotted(ip) == #[trigger] dotted(other);
    dotted_is_injective(ip, found);
}

proof fn lemma_byte_decimal_injective(v: u8, w: u8)
    requires
        decimal(v as nat) == decimal(w as nat),
    ensures
        v == w,
{
    lemma_byte_decimal(v as nat);
    lemma_byte_decimal(w as nat);
    let s = decimal(v as nat);
    assert(s[0] == decimal(w as nat)[0]);
    assert(s.last() == decimal(w as nat).last());
    if s.len() == 3 {
        assert(s[1] == decimal(w as nat)[1]);
    }
}

proof fn lemma_octet_prefix(v: u8, x: Seq<char>, w: u8, y: Seq<char>)
    requires
        decimal(v as nat) + "."@ + x == decimal(w as nat) + "."@ + y,
    ensures
        v == w,
        x == y,
{
    let s = decimal(v as nat) + "."@ + x;
    let t = decimal(w as nat) + "."@ + y;
    let m = decimal(v as nat).len() as int;
    let n = decimal(w as nat).len() as int;
    reveal_strlit(".");
    lemma_byte_decimal(v as nat);
    lemma_byte_decimal(w as nat);
    assert(s[m] == '.' && t[n] == '.');
    if m < n {
        assert(t[m] == decimal(w as nat)[m]);
        assert(is_digit(decimal(w as nat)[m]));
    }
    if n < m {
        assert(s[n] == decimal(v as nat)[n]);
        assert(is_digit(decimal(v as nat)[n]));
    }
    assert(m == n);
    assert(x =~= s.skip(m + 1));
    assert(y =~= t.skip(n + 1));
    assert(decimal(v as nat) =~= s.take(decimal(v as nat).len() as int));
    assert(decimal(w as nat) =~= s.take(decimal(w as nat).len() as int));
    lemma_byte_decimal_injective(v, w);
}

// ── white space and words ───────────────────────────────────────────────────

/// The characters with the Unicode property `White_Space`.
pub open spec fn is_white_space(c: char) -> bool {
    let n = c as int;
    ||| 0x09 <= n <= 0x0d
    ||| n == 0x20
    ||| n == 0x85
    ||| n == 0xa0
    ||| n == 0x1680
    ||| 0x2000 <= n <= 0x200a
    ||| 0x2028 <= n <= 0x2029
    ||| n == 0x202f
    ||| n == 0x205f
    ||| n == 0x3000
}

fn white_space(c: char) -> (r: bool)
    ensures
        r == is_white_space(c),
{
    let n: u32 = c as u32;
    (0x09 <= n && n <= 0x0d) || n == 0x20 || n == 0x85 || n == 0xa0 || n == 0x1680 || (0x2000 <= n
        && n <= 0x200a) || (0x2028 <= n && n <= 0x2029) || n == 0x202f || n == 0x205f || n == 0x3000
}

/// A text without the white space at its start.
pub open spec fn trim_start(s: Seq<char>) -> Seq<char>
    decreases s.len(),
{
    if s.len() > 0 && is_white_space(s[0]) {
        trim_start(s.skip(1))
    } else {
        s
    }
}

/// A text without the white space at its end.
pub open spec fn trim_end(s: Seq<char>) -> Seq<char>
    decreases s.len(),
{
    if s.len() > 0 && is_white_space(s.last()) {
        trim_end(s.drop_last())
    } else {
        s
    }
}

/// A text without the white space at either end.
pub open spec fn trimmed(s: Seq<char>) -> Seq<char> {
    trim_end(trim_start(s))
}

/// How much of a text comes before its first white space.
pub open spec fn word_len(s: Seq<char>) -> nat
    decreases s.len(),
{
    if s.len() > 0 && !is_white_space(s[0]) {
        1 + word_len(s.skip(1))
    } else {
        0
    }
}

/// The pieces of a text between stretches of white space.
pub open spec fn words(s: Seq<char>) -> Seq<Seq<char>>
    decreases s.len(),
    via words_get_shorter
{
    let t = trim_start(s);
    if t.len() == 0 {
        Seq::empty()
    } else {
        let n = word_len(t) as int;
        seq![t.take(n)] + words(t.skip(n))
    }
}

#[via_fn]
proof fn words_get_shorter(s: Seq<char>) {
    let t = trim_start(s);
    lemma_trim_start(s);
    if t.len() > 0 {
        lemma_word_len(t);
        assert(word_len(t) >= 1);
    }
}

proof fn lemma_trim_start(s: Seq<char>)
    ensures
        trim_start(s).len() <= s.len(),
        trim_start(s).len() > 0 ==> !is_white_space(trim_start(s)[0]),
    decreases s.len(),
{
    if s.len() > 0 && is_white_space(s[0]) {
        lemma_trim_start(s.skip(1));
    }
}

proof fn lemma_word_len(s: Seq<char>)
    ensures
        word_len(s) <= s.len(),
    decreases s.len(),
{
    if s.len() > 0 && !is_white_space(s[0]) {
        lemma_word_len(s.skip(1));
    }
}

/// Whether a text is white space all through.
pub open spec fn is_blank(s: Seq<char>) -> bool {
    forall|i: int| 0 <= i < s.len() ==> is_white_space(#[trigger] s[i])
}

/// Whether a text has no white space in it.
pub open spec fn is_solid(s: Seq<char>) -> bool {
    forall|i: int| 0 <= i < s.len() ==> !is_white_space(#[trigger] s[i])
}

/// The characters that are white space, one by one: the tab, the line feed, the vertical tab, the form
/// feed, the carriage return, the space, the next-line and no-break space, and the spaces and separators
/// of the other blocks.
pub proof fn white_space_characters(c: char)
    ensures
        is_white_space(c) <==> c == '\t' || c == '\n' || c == '\u{b}' || c == '\u{c}' || c == '\r' || c
            == ' ' || c == '\u{85}' || c == '\u{a0}' || c == '\u{1680}' || c == '\u{2000}' || c
            == '\u{2001}' || c == '\u{2002}' || c == '\u{2003}' || c == '\u{2004}' || c == '\u{2005}'
            || c == '\u{2006}' || c == '\u{2007}' || c == '\u{2008}' || c == '\u{2009}' || c
            == '\u{200a}' || c == '\u{2028}' || c == '\u{2029}' || c == '\u{202f}' || c == '\u{205f}'
            || c == '\u{3000}',
{
}

/// White space around a text goes, and nothing else does: what is left starts and ends with something
/// else, or is empty.
pub proof fn white_space_around_a_text_goes(before: Seq<char>, s: Seq<char>, behind: Seq<char>)
    requires
        is_blank(before),
        is_blank(behind),
        s.len() > 0 ==> !is_white_space(s[0]) && !is_white_space(s.last()),
    ensures
        trimmed(before + s + behind) == s,
{
    lemma_blank_start(before, s + behind);
    assert(before + s + behind =~= before + (s + behind));
    if s.len() > 0 {
        assert((s + behind)[0] == s[0]);
        lemma_blank_end(s, behind);
    } else {
        assert(s + behind =~= behind + s);
        lemma_blank_start(behind, s);
        assert(trim_start(s) == s && trim_end(s) == s);
    }
}

proof fn lemma_blank_start(blank: Seq<char>, s: Seq<char>)
    requires
        is_blank(blank),
    ensures
        trim_start(blank + s) == trim_start(s),
    decreases blank.len(),
{
    if blank.len() > 0 {
        assert(is_white_space(blank[0]));
        assert((blank + s).skip(1) =~= blank.skip(1) + s);
        lemma_blank_start(blank.skip(1), s);
    } else {
        assert(blank + s =~= s);
    }
}

proof fn lemma_blank_end(s: Seq<char>, blank: Seq<char>)
    requires
        is_blank(blank),
    ensures
        trim_end(s + blank) == trim_end(s),
    decreases blank.len(),
{
    if blank.len() > 0 {
        assert((s + blank).last() == blank[blank.len() - 1]);
        assert((s + blank).drop_last() =~= s + blank.drop_last());
        lemma_blank_end(s, blank.drop_last());
    } else {
        assert(s + blank =~= s);
    }
}

/// The words of a text are what stands between its white space: a text that starts with a word, with or
/// without white space before it, has that word first and then the words of the rest. White space alone
/// has none.
pub proof fn words_stand_between_white_space(
    before: Seq<char>,
    word: Seq<char>,
    gap: Seq<char>,
    rest: Seq<char>,
)
    requires
        is_blank(before),
        is_blank(gap),
        word.len() > 0,
        is_solid(word),
        rest.len() > 0 ==> gap.len() > 0,
    ensures
        words(before + word + gap + rest) == seq![word] + words(rest),
        words(before) == Seq::<Seq<char>>::empty(),
{
    let s = before + word + gap + rest;
    let t = word + gap + rest;
    assert(s =~= before + t);
    lemma_blank_start(before, t);
    assert(t[0] == word[0]);
    assert(!is_white_space(t[0]));
    assert(trim_start(t) == t);
    lemma_word_first(word, gap + rest);
    assert(t =~= word + (gap + rest));
    let n = word.len() as int;
    assert(t.take(n) =~= word);
    assert(t.skip(n) =~= gap + rest);
    lemma_blank_start(gap, rest);
    lemma_words_of_trimmed(gap + rest);
    lemma_words_of_trimmed(rest);
    let none = Seq::<char>::empty();
    assert(before =~= before + none);
    lemma_blank_start(before, none);
    assert(trim_start(none) == none);
}

proof fn lemma_word_first(word: Seq<char>, rest: Seq<char>)
    requires
        is_solid(word),
        rest.len() > 0 ==> is_white_space(rest[0]),
    ensures
        word_len(word + rest) == word.len(),
    decreases word.len(),
{
    if word.len() > 0 {
        assert((word + rest)[0] == word[0]);
        assert((word + rest).skip(1) =~= word.skip(1) + rest);
        lemma_word_first(word.skip(1), rest);
    } else {
        assert(word + rest =~= rest);
    }
}

/// Where a text starts once the white space before it, from `from` on, is passed over.
fn skip_white_space(s: &Vec<char>, from: usize) -> (r: usize)
    requires
        from <= s.len(),
    ensures
        from <= r <= s.len(),
        s@.skip(r as int) == trim_start(s@.skip(from as int)),
{
    let mut i: usize = from;
    while i < s.len() && white_space(s[i])
        invariant
            from <= i <= s.len(),
            trim_start(s@.skip(i as int)) == trim_start(s@.skip(from as int)),
        decreases s.len() - i,
    {
        assert(s@.skip(i as int).skip(1) =~= s@.skip(i + 1));
        i += 1;
    }
    i
}

/// Where the word that starts at `from` ends.
fn skip_word(s: &Vec<char>, from: usize) -> (r: usize)
    requires
        from <= s.len(),
    ensures
        from <= r <= s.len(),
        r - from == word_len(s@.skip(from as int)),
{
    let mut i: usize = from;
    while i < s.len() && !white_space(s[i])
        invariant
            from <= i <= s.len(),
            word_len(s@.skip(from as int)) == i - from + word_len(s@.skip(i as int)),
        decreases s.len() - i,
    {
        assert(s@.skip(i as int).skip(1) =~= s@.skip(i + 1));
        i += 1;
    }
    i
}

/// The text without the white space at either end.
pub fn trim(s: &str) -> (r: &str)
    ensures
        r@ == trimmed(s@),
{
    let chars = chars_of(s);
    let start = skip_white_space(&chars, 0);
    assert(s@.skip(0) =~= s@);
    let mut end: usize = chars.len();
    assert(s@.subrange(start as int, end as int) =~= s@.skip(start as int));
    while end > start && white_space(chars[end - 1])
        invariant
            start <= end <= chars.len(),
            chars@ == s@,
            trim_end(s@.subrange(start as int, end as int)) == trimmed(s@),
        decreases end,
    {
        assert(s@.subrange(start as int, end as int).drop_last() =~= s@.subrange(
            start as int,
            end - 1,
        ));
        end -= 1;
    }
    s.substring_char(start, end)
}

/// Splits a text at white space.
pub fn split_words(s: &str) -> (r: Vec<String>)
    ensures
        r@.len() == words(s@).len(),
        forall|i: int| 0 <= i < r@.len() ==> (#[trigger] r@[i])@ == words(s@)[i],
{
    let chars = chars_of(s);
    let mut out: Vec<String> = Vec::new();
    let mut from: usize = skip_white_space(&chars, 0);
    assert(s@.skip(0) =~= s@);
    proof {
        lemma_words_of_trimmed(s@);
        lemma_trim_start_twice(s@);
        assert(words(s@) =~= out@.map_values(|w: String| w@) + words(s@.skip(from as int)));
    }
    while from < chars.len()
        invariant
            from <= chars.len(),
            chars@ == s@,
            s@.skip(from as int) == trim_start(s@.skip(from as int)),
            words(s@) == out@.map_values(|w: String| w@) + words(s@.skip(from as int)),
        decreases chars.len() - from,
    {
        let ghost rest = s@.skip(from as int);
        let ghost before = out@;
        proof {
            lemma_trim_start(rest);
            lemma_word_len(rest);
        }
        let end = skip_word(&chars, from);
        let word = s.substring_char(from, end);
        assert(word@ =~= rest.take(end - from));
        out.push(word.to_owned());
        let next = skip_white_space(&chars, end);
        proof {
            assert(rest.skip(end - from) =~= s@.skip(end as int));
            lemma_words_of_trimmed(s@.skip(end as int));
            lemma_trim_start_twice(s@.skip(end as int));
            assert(out@.map_values(|w: String| w@) =~= before.map_values(|w: String| w@).push(word@));
            assert(words(rest) == seq![rest.take(end - from)] + words(rest.skip(end - from)));
            assert(words(s@) =~= out@.map_values(|w: String| w@) + words(s@.skip(next as int)));
        }
        from = next;
    }
    proof {
        assert(s@.skip(from as int).len() == 0);
        assert(words(s@.skip(from as int)) =~= Seq::<Seq<char>>::empty());
        assert(words(s@) =~= out@.map_values(|w: String| w@));
    }
    out
}

proof fn lemma_trim_start_twice(s: Seq<char>)
    ensures
        trim_start(trim_start(s)) == trim_start(s),
    decreases s.len(),
{
    if s.len() > 0 && is_white_space(s[0]) {
        lemma_trim_start_twice(s.skip(1));
    }
}

proof fn lemma_words_of_trimmed(s: Seq<char>)
    ensures
        words(trim_start(s)) == words(s),
{
    lemma_trim_start_twice(s);
}

// ── columns and case ────────────────────────────────────────────────────────

/// A text filled up with spaces on the right to a given width.
pub open spec fn padded(s: Seq<char>, width: nat) -> Seq<char> {
    if s.len() < width {
        s + Seq::new((width - s.len()) as nat, |i: int| ' ')
    } else {
        s
    }
}

/// Fills a text up with spaces on the right to a given width.
pub fn pad(s: &str, width: usize) -> (r: String)
    ensures
        r@ == padded(s@, width as nat),
        r@.len() == if s@.len() < width {
            width as int
        } else {
            s@.len() as int
        },
        r@.take(s@.len() as int) == s@,
        forall|i: int| s@.len() <= i < r@.len() ==> #[trigger] r@[i] == ' ',
{
    let mut out: String = s.to_owned();
    let mut n: usize = s.unicode_len();
    let ghost start = n;
    while n < width
        invariant
            start == s@.len(),
            start <= n,
            n <= width || n == start,
            out@ == s@ + Seq::new((n - start) as nat, |i: int| ' '),
        decreases width - n,
    {
        proof {
            reveal_strlit(" ");
        }
        out.append(" ");
        n += 1;
        assert(out@ =~= s@ + Seq::new((n - start) as nat, |i: int| ' '));
    }
    assert(out@ =~= padded(s@, width as nat));
    assert(out@.take(s@.len() as int) =~= s@);
    out
}

/// A text repeated a number of times.
pub open spec fn repeated(s: Seq<char>, times: nat) -> Seq<char>
    decreases times,
{
    if times == 0 {
        Seq::empty()
    } else {
        repeated(s, (times - 1) as nat) + s
    }
}

/// A repeated text is as many copies as there are, one after the other.
pub proof fn repeats_stand_side_by_side(s: Seq<char>, times: nat, k: int, i: int)
    requires
        0 <= k < times,
        0 <= i < s.len(),
    ensures
        repeated(s, times).len() == times * s.len(),
        0 <= k * s.len() + i < times * s.len(),
        repeated(s, times)[k * s.len() + i] == s[i],
    decreases times,
{
    let n = s.len() as int;
    lemma_repeated_len(s, times);
    lemma_repeated_len(s, (times - 1) as nat);
    assert(k * n + i < (k + 1) * n) by (nonlinear_arith)
        requires
            i < n,
    ;
    assert((k + 1) * n <= times * n) by (nonlinear_arith)
        requires
            k + 1 <= times,
            n >= 0,
    ;
    assert(k * n >= 0) by (nonlinear_arith)
        requires
            k >= 0,
            n >= 0,
    ;
    if k < times - 1 {
        repeats_stand_side_by_side(s, (times - 1) as nat, k, i);
    }
}

proof fn lemma_repeated_len(s: Seq<char>, times: nat)
    ensures
        repeated(s, times).len() == times * s.len(),
    decreases times,
{
    if times > 0 {
        lemma_repeated_len(s, (times - 1) as nat);
        assert((times - 1) * s.len() + s.len() == times * s.len()) by (nonlinear_arith);
    } else {
        assert(times * s.len() == 0) by (nonlinear_arith)
            requires
                times == 0,
        ;
    }
}

/// Appends a text a number of times.
pub fn append_repeated(out: &mut String, s: &str, times: usize)
    ensures
        final(out)@ == old(out)@ + repeated(s@, times as nat),
{
    let mut n: usize = 0;
    assert(out@ =~= old(out)@ + repeated(s@, 0));
    while n < times
        invariant
            n <= times,
            out@ == old(out)@ + repeated(s@, n as nat),
        decreases times - n,
    {
        out.append(s);
        n += 1;
        assert(out@ =~= old(out)@ + repeated(s@, n as nat));
    }
}

/// A letter from `A` to `Z` in lower case; any other character as it is.
pub open spec fn ascii_lower(c: char) -> char {
    if 'A' <= c <= 'Z' {
        (c as int + 32) as char
    } else {
        c
    }
}

/// Whether two texts are the same but for the case of the letters `a` to `z`.
pub open spec fn same_ignoring_case(a: Seq<char>, b: Seq<char>) -> bool {
    &&& a.len() == b.len()
    &&& forall|i: int| 0 <= i < a.len() ==> ascii_lower(#[trigger] a[i]) == ascii_lower(b[i])
}

/// Whether two characters are the same, or the same letter from `a` to `z` in either case.
pub open spec fn same_letter(a: char, b: char) -> bool {
    ||| a == b
    ||| 'A' <= a <= 'Z' && b as int == a as int + 32
    ||| 'A' <= b <= 'Z' && a as int == b as int + 32
}

fn lower(c: char) -> (r: u32)
    ensures
        r == ascii_lower(c) as u32,
{
    if 'A' <= c && c <= 'Z' {
        c as u32 + 32
    } else {
        c as u32
    }
}

/// Whether two texts are the same but for the case of the letters `a` to `z`.
pub fn eq_ignoring_case(a: &str, b: &str) -> (r: bool)
    ensures
        r == same_ignoring_case(a@, b@),
        r == (a@.len() == b@.len() && forall|i: int|
            0 <= i < a@.len() ==> same_letter(#[trigger] a@[i], b@[i])),
{
    let x = chars_of(a);
    let y = chars_of(b);
    if x.len() != y.len() {
        return false;
    }
    let mut i: usize = 0;
    while i < x.len()
        invariant
            i <= x.len(),
            x@ == a@,
            y@ == b@,
            x.len() == y.len(),
            forall|k: int| 0 <= k < i ==> ascii_lower(#[trigger] a@[k]) == ascii_lower(b@[k]),
            forall|k: int| 0 <= k < i ==> same_letter(#[trigger] a@[k], b@[k]),
        decreases x.len() - i,
    {
        if lower(x[i]) != lower(y[i]) {
            assert(ascii_lower(a@[i as int]) != ascii_lower(b@[i as int]));
            return false;
        }
        i += 1;
    }
    true
}

} // verus!
