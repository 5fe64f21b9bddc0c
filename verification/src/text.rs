//! Text that the rest of the library builds and reads: numbers in decimal and
//! hexadecimal, white space, searching.
#[allow(unused_imports)]
use vstd::arithmetic::div_mod::*;
#[allow(unused_imports)]
use vstd::arithmetic::power::*;
use vstd::prelude::*;
use vstd::string::*;

verus! {

/// `String::push` of the standard library: appends one character.
pub assume_specification[ String::push ](s: &mut String, c: char)
    ensures
        final(s)@ == old(s)@.push(c),
;

/// `String::pop` of the standard library: removes the last character and gives
/// it back, or `None` from an empty string.
pub assume_specification[ String::pop ](s: &mut String) -> (r: Option<char>)
    ensures
        old(s)@.len() == 0 ==> r is None && final(s)@ == old(s)@,
        old(s)@.len() > 0 ==> r == Some(old(s)@.last()) && final(s)@ == old(s)@.drop_last(),
;

/// `String::clear` of the standard library: removes every character.
pub assume_specification[ String::clear ](s: &mut String)
    ensures
        final(s)@ == Seq::<char>::empty(),
;

/// What the `Debug` formatting of a character writes.
pub uninterp spec fn quoted(c: char) -> Seq<char>;

/// Whether a character is printable ASCII, and neither the single quote nor the
/// backslash.
pub open spec fn is_plain(c: char) -> bool {
    0x20 <= c as u32 <= 0x7E && c != '\'' && c != '\\'
}

/// A character in quotes: as it is where it is plain, else with an escape where it
/// needs one.
pub open spec fn shown(c: char) -> Seq<char> {
    if is_plain(c) {
        seq!['\'', c, '\'']
    } else {
        quoted(c)
    }
}

/// A character in quotes.
///
/// Calls the `Debug` formatting of `char`. The contract names its text, and says that
/// printable ASCII but for the single quote and the backslash stands between single
/// quotes as it is.
#[verifier::external_body]
pub(crate) fn quote(c: char) -> (s: String)
    ensures
        s@ == quoted(c),
        is_plain(c) ==> s@ == seq!['\'', c, '\''],
{
    format!("{c:?}")
}

/// What the `Debug` formatting of a text writes.
pub uninterp spec fn quoted_text(s: Seq<char>) -> Seq<char>;

/// Whether a text is of plain characters, with no double quote among them.
pub open spec fn is_plain_text(s: Seq<char>) -> bool {
    forall|i: int| 0 <= i < s.len() ==> is_plain(#[trigger] s[i]) && s[i] != '"'
}

/// A text in quotes: as it is where it is plain, else with escapes where it needs them.
pub open spec fn shown_text(s: Seq<char>) -> Seq<char> {
    if is_plain_text(s) {
        seq!['"'] + s + seq!['"']
    } else {
        quoted_text(s)
    }
}

/// A text in quotes.
///
/// Calls the `Debug` formatting of `str`. The contract names its text, and says that
/// printable ASCII with neither kind of quote and no backslash stands between double
/// quotes as it is.
#[verifier::external_body]
pub(crate) fn quote_text(s: &str) -> (r: String)
    ensures
        r@ == quoted_text(s@),
        is_plain_text(s@) ==> r@ == seq!['"'] + s@ + seq!['"'],
{
    format!("{s:?}")
}

/// What is read out of bytes as text, come what may.
pub uninterp spec fn lossy(bytes: Seq<u8>) -> Seq<char>;

/// Bytes as text, with a replacement character for whatever is no UTF-8.
///
/// Calls `String::from_utf8_lossy`. The contract names the text, and says that
/// bytes which are UTF-8 give the text that they encode.
#[verifier::external_body]
pub(crate) fn text_lossy(bytes: &[u8]) -> (s: String)
    ensures
        s@ == lossy(bytes@),
        vstd::utf8::valid_utf8(bytes@) ==> s@ == vstd::utf8::decode_utf8(bytes@),
{
    String::from_utf8_lossy(bytes).into_owned()
}

/// The decimal digit of a value below ten.
pub open spec fn digit(d: nat) -> char {
    (48 + d) as char
}

/// A number in decimal, without leading zeros.
pub open spec fn decimal(n: nat) -> Seq<char>
    decreases n,
{
    if n < 10 {
        seq![digit(n)]
    } else {
        decimal(n / 10).push(digit(n % 10))
    }
}

/// The upper-case hexadecimal digit of a value below sixteen.
pub open spec fn hex_digit(d: nat) -> char {
    if d < 10 {
        (48 + d) as char
    } else {
        (55 + d) as char
    }
}

/// A byte as two upper-case hexadecimal digits.
pub open spec fn hex_byte(b: u8) -> Seq<char> {
    seq![hex_digit((b / 16) as nat), hex_digit((b % 16) as nat)]
}

/// Whether a character is white space, as Unicode has it.
pub open spec fn is_white(c: char) -> bool {
    ||| 0x09 <= c as int <= 0x0D
    ||| c as int == 0x20
    ||| c as int == 0x85
    ||| c as int == 0xA0
    ||| c as int == 0x1680
    ||| 0x2000 <= c as int <= 0x200A
    ||| c as int == 0x2028
    ||| c as int == 0x2029
    ||| c as int == 0x202F
    ||| c as int == 0x205F
    ||| c as int == 0x3000
}

/// A text without the white space at its end.
pub open spec fn trimmed_end(s: Seq<char>) -> Seq<char>
    decreases s.len(),
{
    if s.len() > 0 && is_white(s.last()) {
        trimmed_end(s.drop_last())
    } else {
        s
    }
}

/// A text without the white space at its start.
pub open spec fn trimmed_start(s: Seq<char>) -> Seq<char>
    decreases s.len(),
{
    if s.len() > 0 && is_white(s.first()) {
        trimmed_start(s.drop_first())
    } else {
        s
    }
}

/// A text without the white space at both ends.
pub open spec fn trimmed(s: Seq<char>) -> Seq<char> {
    trimmed_end(trimmed_start(s))
}

/// Whether `needle` stands in `s` at position `i`.
pub open spec fn occurs_at(s: Seq<char>, needle: Seq<char>, i: int) -> bool {
    0 <= i && i + needle.len() <= s.len() && s.subrange(i, i + needle.len()) == needle
}

/// Whether `needle` stands somewhere in `s`.
pub open spec fn occurs(s: Seq<char>, needle: Seq<char>) -> bool {
    exists|i: int| occurs_at(s, needle, i)
}

/// Appends `n` in decimal.
pub fn push_decimal(s: &mut String, n: u64)
    ensures
        final(s)@ == old(s)@ + decimal(n as nat),
    decreases n,
{
    if n >= 10 {
        push_decimal(s, n / 10);
    }
    let d: u8 = (n % 10) as u8;
    s.push((48 + d) as char);
    assert(s@ =~= old(s)@ + decimal(n as nat));
}

/// The upper-case hexadecimal digit of `d`.
fn hex_char(d: u8) -> (c: char)
    requires
        d < 16,
    ensures
        c == hex_digit(d as nat),
{
    if d < 10 {
        (48 + d) as char
    } else {
        (55 + d) as char
    }
}

/// Appends `b` as two upper-case hexadecimal digits.
pub fn push_hex(s: &mut String, b: u8)
    ensures
        final(s)@ == old(s)@ + hex_byte(b),
{
    s.push(hex_char(b / 16));
    s.push(hex_char(b % 16));
    assert(s@ =~= old(s)@ + hex_byte(b));
}

/// Appends a text.
pub fn push_text(s: &mut String, t: &str)
    ensures
        final(s)@ == old(s)@ + t@,
{
    s.append(t);
}

/// Appends `n` times the character `c`.
pub fn push_repeated(s: &mut String, c: char, n: usize)
    ensures
        final(s)@ == old(s)@ + Seq::new(n as nat, |i: int| c),
{
    let ghost start = s@;
    for k in 0..n
        invariant
            s@ == start + Seq::new(k as nat, |i: int| c),
    {
        s.push(c);
        assert(s@ =~= start + Seq::new((k + 1) as nat, |i: int| c));
    }
    assert(start + Seq::new(0, |i: int| c) =~= start);
}

/// Whether `c` is white space.
pub fn is_whitespace(c: char) -> (r: bool)
    ensures
        r == is_white(c),
{
    let n: u32 = c as u32;
    (0x09 <= n && n <= 0x0D) || n == 0x20 || n == 0x85 || n == 0xA0 || n == 0x1680 || (0x2000 <= n
        && n <= 0x200A) || n == 0x2028 || n == 0x2029 || n == 0x202F || n == 0x205F || n == 0x3000
}

/// The characters of a text.
pub fn chars_of(s: &str) -> (v: Vec<char>)
    ensures
        v@ == s@,
{
    let mut v: Vec<char> = Vec::new();
    for c in it: s.chars()
        invariant
            v@ == it.seq().take(it.index()),
            it.seq() == s@,
    {
        v.push(c);
        assert(it.seq().take(it.index() + 1) =~= it.seq().take(it.index()).push(c));
    }
    assert(s@.take(s@.len() as int) =~= s@);
    v
}

/// Whether two texts are the same.
pub fn same(a: &str, b: &str) -> (r: bool)
    ensures
        r == (a@ == b@),
{
    let v = chars_of(a);
    let w = chars_of(b);
    if v.len() != w.len() {
        return false;
    }
    for i in 0..v.len()
        invariant
            v@ == a@,
            w@ == b@,
            v@.len() == w@.len(),
            forall|k: int| 0 <= k < i ==> v@[k] == w@[k],
    {
        if v[i] != w[i] {
            return false;
        }
    }
    assert(v@ =~= w@);
    true
}

/// The text of characters `from` (inclusive) to `to` (exclusive).
pub fn text_of(v: &Vec<char>, from: usize, to: usize) -> (s: String)
    requires
        from <= to <= v@.len(),
    ensures
        s@ == v@.subrange(from as int, to as int),
{
    let mut s = String::new();
    for i in from..to
        invariant
            from <= to <= v@.len(),
            s@ == v@.subrange(from as int, i as int),
    {
        s.push(v[i]);
        assert(v@.subrange(from as int, i + 1) =~= v@.subrange(from as int, i as int).push(
            v@[i as int],
        ));
    }
    s
}

/// The position behind the last character that is no white space.
fn end_of_text(v: &Vec<char>, from: usize) -> (to: usize)
    requires
        from <= v@.len(),
    ensures
        from <= to <= v@.len(),
        v@.subrange(from as int, to as int) == trimmed_end(
            v@.subrange(from as int, v@.len() as int),
        ),
{
    let mut to: usize = v.len();
    while to > from && is_whitespace(v[to - 1])
        invariant
            from <= to <= v@.len(),
            trimmed_end(v@.subrange(from as int, to as int)) == trimmed_end(
                v@.subrange(from as int, v@.len() as int),
            ),
        decreases to,
    {
        assert(v@.subrange(from as int, to as int).drop_last() =~= v@.subrange(
            from as int,
            to - 1,
        ));
        to -= 1;
    }
    to
}

/// A text without the white space at its end.
pub fn trim_end(s: &str) -> (r: String)
    ensures
        r@ == trimmed_end(s@),
{
    let v = chars_of(s);
    let to: usize = end_of_text(&v, 0);
    assert(v@.subrange(0, v@.len() as int) =~= s@);
    text_of(&v, 0, to)
}

/// A text without the white space at both ends.
pub fn trim(s: &str) -> (r: String)
    ensures
        r@ == trimmed(s@),
{
    let v = chars_of(s);
    let mut from: usize = 0;
    assert(v@.subrange(0, v@.len() as int) =~= s@);
    while from < v.len() && is_whitespace(v[from])
        invariant
            from <= v@.len(),
            trimmed_start(v@.subrange(from as int, v@.len() as int)) == trimmed_start(s@),
        decreases v@.len() - from,
    {
        assert(v@.subrange(from as int, v@.len() as int).drop_first() =~= v@.subrange(
            from + 1,
            v@.len() as int,
        ));
        from += 1;
    }
    let to: usize = end_of_text(&v, from);
    text_of(&v, from, to)
}

/// Whether `needle` stands in `s` at position `i`.
fn occurs_here(s: &Vec<char>, needle: &Vec<char>, i: usize) -> (r: bool)
    requires
        i + needle@.len() <= s@.len(),
    ensures
        r == occurs_at(s@, needle@, i as int),
{
    assert(s.len() == s@.len());
    for k in 0..needle.len()
        invariant
            i + needle@.len() <= s@.len() <= usize::MAX,
            forall|j: int| 0 <= j < k ==> s@[i + j] == needle@[j],
    {
        if s[i + k] != needle[k] {
            assert(s@.subrange(i as int, i + needle@.len())[k as int] != needle@[k as int]);
            return false;
        }
    }
    assert(s@.subrange(i as int, i + needle@.len()) =~= needle@);
    true
}

/// Whether `needle` stands somewhere in `s`.
pub fn contains(s: &str, needle: &str) -> (r: bool)
    ensures
        r == occurs(s@, needle@),
{
    let v = chars_of(s);
    let n = chars_of(needle);
    if n.len() > v.len() {
        return false;
    }
    let last: usize = v.len() - n.len();
    let mut i: usize = 0;
    while i <= last
        invariant
            v@ == s@,
            n@ == needle@,
            n@.len() <= v@.len(),
            last == v@.len() - n@.len(),
            i <= last + 1,
            forall|j: int| 0 <= j < i ==> !occurs_at(s@, needle@, j),
        decreases last + 1 - i,
    {
        if occurs_here(&v, &n, i) {
            return true;
        }
        if i == last {
            return false;
        }
        i += 1;
    }
    false
}

/// Whether a text is made of decimal digits and nothing else.
pub open spec fn all_digits(s: Seq<char>) -> bool {
    forall|i: int| 0 <= i < s.len() ==> '0' <= #[trigger] s[i] <= '9'
}

/// The value of decimal digits.
pub open spec fn digits_value(s: Seq<char>) -> nat
    decreases s.len(),
{
    if s.len() == 0 {
        0
    } else {
        digits_value(s.drop_last()) * 10 + (s.last() as int - 48) as nat
    }
}

/// A text without a plus sign in front of it.
pub open spec fn unsigned(s: Seq<char>) -> Seq<char> {
    if s.len() > 1 && s[0] == '+' {
        s.skip(1)
    } else {
        s
    }
}

/// The number up to `max` that a text is: decimal digits, perhaps with a plus
/// sign in front and with leading zeros.
pub open spec fn number_up_to(s: Seq<char>, max: nat) -> Option<nat> {
    let digits = unsigned(s);
    if digits.len() > 0 && all_digits(digits) && digits_value(digits) <= max {
        Some(digits_value(digits))
    } else {
        None
    }
}

/// The value only grows when digits are added.
proof fn lemma_digits_value_grows(s: Seq<char>, n: int)
    requires
        0 <= n <= s.len(),
        all_digits(s),
    ensures
        digits_value(s.take(n)) <= digits_value(s),
    decreases s.len(),
{
    if n == s.len() {
        assert(s.take(n) =~= s);
    } else {
        let less = s.drop_last();
        assert forall|i: int| 0 <= i < less.len() implies '0' <= #[trigger] less[i] <= '9' by {
            assert(less[i] == s[i]);
        }
        lemma_digits_value_grows(less, n);
        assert(less.take(n) =~= s.take(n));
    }
}

/// Reads a number up to `max`.
pub fn parse_number(s: &str, max: u32) -> (r: Option<u32>)
    ensures
        match r {
            Some(n) => number_up_to(s@, max as nat) == Some(n as nat),
            None => number_up_to(s@, max as nat) is None,
        },
{
    let v = chars_of(s);
    let start: usize = if v.len() > 1 && v[0] == '+' {
        1
    } else {
        0
    };
    let ghost digits = unsigned(s@);
    assert(digits =~= v@.skip(start as int));
    if start == v.len() {
        return None;
    }
    let mut n: u32 = 0;
    let mut i: usize = start;
    while i < v.len()
        invariant
            start <= i <= v@.len(),
            start < v@.len(),
            digits == unsigned(s@),
            digits == v@.skip(start as int),
            forall|k: int| 0 <= k < i - start ==> '0' <= #[trigger] digits[k] <= '9',
            n == digits_value(digits.take(i - start)),
            n <= max,
        decreases v@.len() - i,
    {
        let c: char = v[i];
        assert(digits[i - start] == c);
        if !('0' <= c && c <= '9') {
            return None;
        }
        let d: u64 = (c as u32 - 48) as u64;
        let next: u64 = n as u64 * 10 + d;
        assert(digits.take(i + 1 - start).drop_last() =~= digits.take(i - start));
        if next > max as u64 {
            proof {
                if all_digits(digits) {
                    lemma_digits_value_grows(digits, i + 1 - start);
                }
            }
            return None;
        }
        n = next as u32;
        i += 1;
    }
    assert(digits.take(digits.len() as int) =~= digits);
    Some(n)
}

/// A place of ten times a number and a digit more is one place up in the number.
proof fn lemma_next_place(n: nat, d: nat, k: nat)
    requires
        d < 10,
        k > 0,
    ensures
        (n * 10 + d) / (pow(10, k) as nat) == n / (pow(10, (k - 1) as nat) as nat),
        pow(10, k) == 10 * pow(10, (k - 1) as nat),
        pow(10, (k - 1) as nat) > 0,
{
    let j = (k - 1) as nat;
    lemma_pow_positive(10, j);
    reveal(pow);
    let p = pow(10, j);
    lemma_div_denominator((n * 10 + d) as int, 10, p);
    assert((n * 10 + d) / 10 == n);
}

/// A number in decimal is its digits: each place holds the digit that the number has
/// there, there are no more places than it takes, and no other characters.
pub proof fn law_decimal_digits(n: nat, k: nat)
    ensures
        decimal(n).len() >= 1,
        decimal(n).len() == 1 || decimal(n)[0] != '0',
        n < pow(10, decimal(n).len()),
        k < decimal(n).len() ==> decimal(n)[decimal(n).len() - 1 - k] as int == 48 + n / (pow(
            10,
            k,
        ) as nat) % 10,
    decreases n,
{
    reveal(pow);
    if n < 10 {
        assert(pow(10, 1) == 10) by {
            reveal_with_fuel(pow, 2);
        }
        assert(pow(10, 0) == 1);
        assert(k == 0 ==> n / (pow(10, k) as nat) == n);
    } else {
        let front = decimal(n / 10);
        let j = if k > 0 {
            (k - 1) as nat
        } else {
            0
        };
        law_decimal_digits(n / 10, j);
        lemma_next_place(n / 10, n % 10, front.len() + 1);
        assert(n == n / 10 * 10 + n % 10);
        let p = pow(10, front.len());
        assert(n < 10 * p);
        if k == 0 {
            assert(pow(10, k) as nat == 1);
            assert(n / 1nat == n);
            assert(decimal(n).last() as int == 48 + n % 10);
        } else {
            lemma_next_place(n / 10, n % 10, k);
            if k < decimal(n).len() {
                assert(decimal(n)[decimal(n).len() - 1 - k] == front[front.len() - 1 - j]);
            }
        }
        if front.len() == 1 {
            assert(n / 10 >= 1);
            law_decimal_digits(n / 10, 0);
            assert(pow(10, 0) == 1);
            assert(n / 10 < pow(10, 1));
            assert(pow(10, 1) == 10) by {
                reveal_with_fuel(pow, 2);
            }
            assert(front[0] as int == 48 + n / 10 % 10);
        }
    }
}

/// What decimal digits stand for: each of them counts at its place, and leading zeros
/// count for nothing.
pub proof fn law_digits_stand_for_the_number(s: Seq<char>, k: nat)
    requires
        forall|i: int| 0 <= i < s.len() ==> '0' <= #[trigger] s[i] <= '9',
    ensures
        digits_value(s) < pow(10, s.len()),
        k < s.len() ==> digits_value(s) / (pow(10, k) as nat) % 10 == s[s.len() - 1 - k] as int
            - 48,
    decreases s.len(),
{
    reveal(pow);
    if s.len() > 0 {
        let front = s.drop_last();
        let n = digits_value(front);
        let d = (s.last() as int - 48) as nat;
        let j = if k > 0 {
            (k - 1) as nat
        } else {
            0
        };
        assert forall|i: int| 0 <= i < front.len() implies '0' <= #[trigger] front[i] <= '9' by {
            assert(front[i] == s[i]);
        }
        assert(s[s.len() - 1] == s.last());
        law_digits_stand_for_the_number(front, j);
        lemma_next_place(n, d, s.len());
        if k == 0 {
            assert(pow(10, k) as nat == 1);
            assert(digits_value(s) / 1nat == digits_value(s));
        } else {
            lemma_next_place(n, d, k);
            if k < s.len() {
                assert(s[s.len() - 1 - k] == front[front.len() - 1 - j]);
            }
        }
    }
}

/// A text is read as a number exactly where it is one: digits and no other characters,
/// perhaps behind one plus sign, and no more than the limit.
pub proof fn law_what_reads_as_a_number(s: Seq<char>, max: nat)
    ensures
        s.len() == 0 ==> number_up_to(s, max) is None,
        s.len() > 1 && s[0] == '+' ==> number_up_to(s, max) == number_up_to_digits(s.skip(1), max),
        s.len() == 1 || (s.len() > 1 && s[0] != '+') ==> number_up_to(s, max)
            == number_up_to_digits(s, max),
{
}

/// The number up to `max` that digits stand for.
pub open spec fn number_up_to_digits(s: Seq<char>, max: nat) -> Option<nat> {
    if (forall|i: int| 0 <= i < s.len() ==> '0' <= #[trigger] s[i] <= '9') && digits_value(s)
        <= max {
        Some(digits_value(s))
    } else {
        None
    }
}

/// Whether a character is the hexadecimal digit of a value: one of `0` to `9` and `A` to
/// `F`.
pub open spec fn shows_digit(c: char, v: int) -> bool {
    ||| 0 <= v <= 9 && c as int == 0x30 + v
    ||| 10 <= v <= 15 && c as int == 0x41 + v - 10
}

/// A byte in hexadecimal is two digits, the high one first.
pub proof fn law_hex_digits(b: u8)
    ensures
        hex_byte(b).len() == 2,
        shows_digit(hex_byte(b)[0], b as int / 16),
        shows_digit(hex_byte(b)[1], b as int % 16),
{
}

/// The twenty-five characters that Unicode counts as white space.
pub proof fn law_white_space(c: char)
    ensures
        is_white(c) <==> seq![
            0x09int,
            0x0A,
            0x0B,
            0x0C,
            0x0D,
            0x20,
            0x85,
            0xA0,
            0x1680,
            0x2000,
            0x2001,
            0x2002,
            0x2003,
            0x2004,
            0x2005,
            0x2006,
            0x2007,
            0x2008,
            0x2009,
            0x200A,
            0x2028,
            0x2029,
            0x202F,
            0x205F,
            0x3000,
        ].contains(c as int),
{
    let all = seq![
        0x09int,
        0x0A,
        0x0B,
        0x0C,
        0x0D,
        0x20,
        0x85,
        0xA0,
        0x1680,
        0x2000,
        0x2001,
        0x2002,
        0x2003,
        0x2004,
        0x2005,
        0x2006,
        0x2007,
        0x2008,
        0x2009,
        0x200A,
        0x2028,
        0x2029,
        0x202F,
        0x205F,
        0x3000,
    ];
    let n = c as int;
    if is_white(c) {
        let i: int = if n <= 0x0D {
            n - 9
        } else if n == 0x20 {
            5
        } else if n == 0x85 {
            6
        } else if n == 0xA0 {
            7
        } else if n == 0x1680 {
            8
        } else if n <= 0x200A {
            n - 0x2000 + 9
        } else if n == 0x2028 {
            20
        } else if n == 0x2029 {
            21
        } else if n == 0x202F {
            22
        } else if n == 0x205F {
            23
        } else {
            24
        };
        assert(all[i] == n);
    }
}

/// Trimming takes off white space at the ends and nothing else: what is left is one
/// stretch of the text, all around it is white, and neither of its ends is.
pub proof fn law_trimming_takes_white_ends(s: Seq<char>)
    ensures
        exists|i: int, j: int|
            {
                &&& 0 <= i <= j <= s.len()
                &&& trimmed(s) == #[trigger] s.subrange(i, j)
                &&& forall|k: int| 0 <= k < i || j <= k < s.len() ==> is_white(#[trigger] s[k])
                &&& i < j ==> !is_white(s[i]) && !is_white(s[j - 1])
            },
        exists|j: int|
            {
                &&& 0 <= j <= s.len()
                &&& trimmed_end(s) == #[trigger] s.take(j)
                &&& forall|k: int| j <= k < s.len() ==> is_white(#[trigger] s[k])
                &&& 0 < j ==> !is_white(s[j - 1])
            },
{
    lemma_trimmed_end(s);
    lemma_trimmed_start(s);
    let i = choose|i: int|
        {
            &&& 0 <= i <= s.len()
            &&& trimmed_start(s) == #[trigger] s.skip(i)
            &&& forall|k: int| 0 <= k < i ==> is_white(#[trigger] s[k])
            &&& i < s.len() ==> !is_white(s[i])
        };
    let rest = s.skip(i);
    lemma_trimmed_end(rest);
    let m = choose|j: int|
        {
            &&& 0 <= j <= rest.len()
            &&& trimmed_end(rest) == #[trigger] rest.take(j)
            &&& forall|k: int| j <= k < rest.len() ==> is_white(#[trigger] rest[k])
            &&& 0 < j ==> !is_white(rest[j - 1])
        };
    let j = i + m;
    assert(rest.take(m) =~= s.subrange(i, j));
    assert forall|k: int| 0 <= k < i || j <= k < s.len() implies is_white(#[trigger] s[k]) by {
        if j <= k {
            assert(rest[k - i] == s[k]);
        }
    }
    if m > 0 {
        assert(rest[m - 1] == s[j - 1]);
    }
}

proof fn lemma_trimmed_end(s: Seq<char>)
    ensures
        exists|j: int|
            {
                &&& 0 <= j <= s.len()
                &&& trimmed_end(s) == #[trigger] s.take(j)
                &&& forall|k: int| j <= k < s.len() ==> is_white(#[trigger] s[k])
                &&& 0 < j ==> !is_white(s[j - 1])
            },
    decreases s.len(),
{
    if s.len() > 0 && is_white(s.last()) {
        let front = s.drop_last();
        lemma_trimmed_end(front);
        let j = choose|j: int|
            {
                &&& 0 <= j <= front.len()
                &&& trimmed_end(front) == #[trigger] front.take(j)
                &&& forall|k: int| j <= k < front.len() ==> is_white(#[trigger] front[k])
                &&& 0 < j ==> !is_white(front[j - 1])
            };
        assert(front.take(j) =~= s.take(j));
        assert forall|k: int| j <= k < s.len() implies is_white(#[trigger] s[k]) by {
            if k < front.len() {
                assert(front[k] == s[k]);
            }
        }
    } else {
        assert(s.take(s.len() as int) =~= s);
    }
}

proof fn lemma_trimmed_start(s: Seq<char>)
    ensures
        exists|i: int|
            {
                &&& 0 <= i <= s.len()
                &&& trimmed_start(s) == #[trigger] s.skip(i)
                &&& forall|k: int| 0 <= k < i ==> is_white(#[trigger] s[k])
                &&& i < s.len() ==> !is_white(s[i])
            },
    decreases s.len(),
{
    if s.len() > 0 && is_white(s.first()) {
        let rest = s.drop_first();
        lemma_trimmed_start(rest);
        let i = choose|i: int|
            {
                &&& 0 <= i <= rest.len()
                &&& trimmed_start(rest) == #[trigger] rest.skip(i)
                &&& forall|k: int| 0 <= k < i ==> is_white(#[trigger] rest[k])
                &&& i < rest.len() ==> !is_white(rest[i])
            };
        assert(rest.skip(i) =~= s.skip(i + 1));
        assert forall|k: int| 0 <= k < i + 1 implies is_white(#[trigger] s[k]) by {
            if k > 0 {
                assert(rest[k - 1] == s[k]);
            }
        }
        if i < rest.len() {
            assert(rest[i] == s[i + 1]);
        }
    } else {
        assert(s.skip(0) =~= s);
    }
}

/// A text stands in another exactly where that is it with something before and
/// something behind.
pub proof fn law_occurs_inside(s: Seq<char>, needle: Seq<char>)
    ensures
        occurs(s, needle) <==> exists|before: Seq<char>, behind: Seq<char>|
            s == #[trigger] (before + needle + behind),
{
    if occurs(s, needle) {
        let i = choose|i: int| occurs_at(s, needle, i);
        let before = s.take(i);
        let behind = s.skip(i + needle.len());
        assert(s =~= before + needle + behind);
    }
    if exists|before: Seq<char>, behind: Seq<char>| s == #[trigger] (before + needle + behind) {
        let (before, behind) = choose|before: Seq<char>, behind: Seq<char>|
            s == #[trigger] (before + needle + behind);
        let i = before.len() as int;
        assert(s.subrange(i, i + needle.len()) =~= needle);
        assert(occurs_at(s, needle, i));
    }
}

} // verus!
