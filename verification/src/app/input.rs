//! The input line: its editing, its history, and what it says to send.
#[allow(unused_imports)]
use crate::app::record;
#[allow(unused_imports)]
use crate::text;
use crate::text::{chars_of, is_whitespace, push_text, quote, same};
use vstd::prelude::*;
use vstd::slice::slice_to_vec;
use vstd::string::*;

verus! {

/// How the input line is read.
#[derive(Debug, Clone, Copy, PartialEq, Eq, Structural)]
pub enum InputMode {
    /// As text, which is what AT commands are.
    Ascii,
    /// As bytes in hexadecimal.
    Hex,
}

impl Default for InputMode {
    fn default() -> (m: Self)
        ensures
            m == InputMode::Ascii,
    {
        InputMode::Ascii
    }
}

impl InputMode {
    /// The name of the mode.
    pub open spec fn text(self) -> Seq<char> {
        match self {
            InputMode::Ascii => "ASCII"@,
            InputMode::Hex => "HEX"@,
        }
    }

    /// The other mode.
    pub open spec fn other(self) -> InputMode {
        match self {
            InputMode::Ascii => InputMode::Hex,
            InputMode::Hex => InputMode::Ascii,
        }
    }

    /// The name of the mode.
    pub fn label(self) -> (r: &'static str)
        ensures
            r@ == self.text(),
    {
        match self {
            InputMode::Ascii => "ASCII",
            InputMode::Hex => "HEX",
        }
    }
}

/// What is put behind a line of text when it is sent.
#[derive(Debug, Clone, Copy, PartialEq, Eq, Structural)]
pub enum LineEnding {
    Nothing,
    Cr,
    Lf,
    CrLf,
}

impl Default for LineEnding {
    fn default() -> (e: Self)
        ensures
            e == LineEnding::Cr,
    {
        LineEnding::Cr
    }
}

impl LineEnding {
    /// The bytes of the ending.
    pub open spec fn bytes(self) -> Seq<u8> {
        match self {
            LineEnding::Nothing => Seq::empty(),
            LineEnding::Cr => seq![0x0D],
            LineEnding::Lf => seq![0x0A],
            LineEnding::CrLf => seq![0x0D, 0x0A],
        }
    }

    /// The word that stands for the ending.
    pub open spec fn word(self) -> Seq<char> {
        match self {
            LineEnding::Nothing => "none"@,
            LineEnding::Cr => "cr"@,
            LineEnding::Lf => "lf"@,
            LineEnding::CrLf => "crlf"@,
        }
    }

    /// The ending that a word stands for, or what is wrong with the word.
    pub open spec fn of_word(word: Seq<char>) -> Result<LineEnding, Seq<char>> {
        if word == "none"@ {
            Ok(LineEnding::Nothing)
        } else if word == "cr"@ {
            Ok(LineEnding::Cr)
        } else if word == "lf"@ {
            Ok(LineEnding::Lf)
        } else if word == "crlf"@ {
            Ok(LineEnding::CrLf)
        } else {
            Err("结束符必须是 none/cr/lf/crlf 之一，实际是 "@ + word)
        }
    }

    /// Reads the word for an ending.
    pub fn parse(word: &str) -> (r: Result<LineEnding, String>)
        ensures
            match r {
                Ok(e) => LineEnding::of_word(word@) == Ok::<LineEnding, Seq<char>>(e),
                Err(why) => LineEnding::of_word(word@) == Err::<LineEnding, Seq<char>>(why@),
            },
    {
        if same(word, "none") {
            Ok(LineEnding::Nothing)
        } else if same(word, "cr") {
            Ok(LineEnding::Cr)
        } else if same(word, "lf") {
            Ok(LineEnding::Lf)
        } else if same(word, "crlf") {
            Ok(LineEnding::CrLf)
        } else {
            let mut why = String::new();
            push_text(&mut why, "结束符必须是 none/cr/lf/crlf 之一，实际是 ");
            push_text(&mut why, word);
            assert(why@ =~= "结束符必须是 none/cr/lf/crlf 之一，实际是 "@ + word@);
            Err(why)
        }
    }
}

/// Reading the word of an ending gives the ending back.
pub proof fn law_line_ending_words(e: LineEnding)
    ensures
        LineEnding::of_word(e.word()) == Ok::<LineEnding, Seq<char>>(e),
{
    reveal_strlit("none");
    reveal_strlit("cr");
    reveal_strlit("lf");
    reveal_strlit("crlf");
    assert("none"@[0] == 'n');
    assert("cr"@[0] == 'c');
    assert("lf"@[0] == 'l');
    assert("cr"@.len() == 2);
    assert("crlf"@.len() == 4);
    assert("crlf"@[0] == 'c');
}

/// The value of a hexadecimal digit of either case.
pub open spec fn hex_value(c: char) -> Option<nat> {
    if '0' <= c <= '9' {
        Some((c as int - 48) as nat)
    } else if 'a' <= c <= 'f' {
        Some((c as int - 87) as nat)
    } else if 'A' <= c <= 'F' {
        Some((c as int - 55) as nat)
    } else {
        None
    }
}

/// A text without any white space.
pub open spec fn compact(s: Seq<char>) -> Seq<char> {
    s.filter(|c: char| !text::is_white(c))
}

/// The first character that is no hexadecimal digit.
pub open spec fn first_bad(s: Seq<char>) -> Option<char>
    decreases s.len(),
{
    if s.len() == 0 {
        None
    } else if hex_value(s.first()) is None {
        Some(s.first())
    } else {
        first_bad(s.drop_first())
    }
}

/// The bytes that pairs of hexadecimal digits spell.
pub open spec fn hex_bytes(digits: Seq<char>) -> Seq<u8> {
    Seq::new(
        digits.len() / 2,
        |i: int| (hex_value(digits[2 * i])->0 * 16 + hex_value(digits[2 * i + 1])->0) as u8,
    )
}

/// The bytes that a line of hexadecimal digits stands for, or what is wrong with
/// it. White space plays no part.
pub open spec fn parsed_hex(line: Seq<char>) -> Result<Seq<u8>, Seq<char>> {
    let digits = compact(line);
    if digits.len() == 0 {
        Err("输入为空"@)
    } else {
        match first_bad(digits) {
            Some(bad) => Err("非法十六进制字符 "@ + text::shown(bad)),
            None => if digits.len() % 2 != 0 {
                Err("十六进制位数必须为偶数"@)
            } else {
                Ok(hex_bytes(digits))
            },
        }
    }
}

/// The bytes that an input line stands for, or what is wrong with it. The ending
/// goes behind text only: in hexadecimal every byte is the user's own.
pub open spec fn parsed(
    line: Seq<char>,
    mode: InputMode,
    ending: LineEnding,
) -> Result<Seq<u8>, Seq<char>> {
    match mode {
        InputMode::Ascii => if line.len() == 0 {
            Err("输入为空"@)
        } else {
            Ok(vstd::utf8::encode_utf8(line) + ending.bytes())
        },
        InputMode::Hex => parsed_hex(line),
    }
}

/// Whether a result says what `spec` says.
pub open spec fn says(r: Result<Vec<u8>, String>, spec: Result<Seq<u8>, Seq<char>>) -> bool {
    match r {
        Ok(bytes) => spec == Ok::<Seq<u8>, Seq<char>>(bytes@),
        Err(why) => spec == Err::<Seq<u8>, Seq<char>>(why@),
    }
}

/// The value of a hexadecimal digit.
fn digit_value(c: char) -> (r: Option<u8>)
    ensures
        match r {
            Some(v) => hex_value(c) == Some(v as nat) && v < 16,
            None => hex_value(c) is None,
        },
{
    if '0' <= c && c <= '9' {
        Some((c as u32 - 48) as u8)
    } else if 'a' <= c && c <= 'f' {
        Some((c as u32 - 87) as u8)
    } else if 'A' <= c && c <= 'F' {
        Some((c as u32 - 55) as u8)
    } else {
        None
    }
}

/// The characters of a line that are no white space.
fn compact_chars(line: &str) -> (v: Vec<char>)
    ensures
        v@ == compact(line@),
{
    let all = chars_of(line);
    let mut v: Vec<char> = Vec::new();
    let ghost keep = |c: char| !text::is_white(c);
    proof {
        reveal(Seq::filter);
    }
    for i in 0..all.len()
        invariant
            keep == (|c: char| !text::is_white(c)),
            v@ == all@.take(i as int).filter(keep),
    {
        proof {
            reveal(Seq::filter);
            assert(all@.take(i + 1).drop_last() =~= all@.take(i as int));
        }
        if !is_whitespace(all[i]) {
            v.push(all[i]);
        }
    }
    assert(all@.take(all@.len() as int) =~= all@);
    v
}

/// Where every digit before `i` is good, the first bad one is among the rest.
proof fn lemma_first_bad(s: Seq<char>, i: int)
    requires
        0 <= i <= s.len(),
        forall|k: int| 0 <= k < i ==> hex_value(#[trigger] s[k]) is Some,
    ensures
        first_bad(s) == first_bad(s.skip(i)),
    decreases i,
{
    if i > 0 {
        let rest = s.drop_first();
        assert forall|k: int| 0 <= k < i - 1 implies hex_value(#[trigger] rest[k]) is Some by {
            assert(rest[k] == s[k + 1]);
        }
        lemma_first_bad(rest, i - 1);
        assert(rest.skip(i - 1) =~= s.skip(i));
        assert(hex_value(s[0]) is Some);
    } else {
        assert(s.skip(0) =~= s);
    }
}

/// The error for an empty line.
fn empty_input() -> (s: String)
    ensures
        s@ == "输入为空"@,
{
    "输入为空".to_string()
}

/// Reads an input line as bytes in hexadecimal.
fn parse_hex(line: &str) -> (r: Result<Vec<u8>, String>)
    ensures
        says(r, parsed_hex(line@)),
{
    let digits = compact_chars(line);
    if digits.len() == 0 {
        return Err(empty_input());
    }
    for i in 0..digits.len()
        invariant
            digits@ == compact(line@),
            digits@.len() > 0,
            forall|k: int| 0 <= k < i ==> hex_value(#[trigger] digits@[k]) is Some,
    {
        if digit_value(digits[i]).is_none() {
            proof {
                lemma_first_bad(digits@, i as int);
            }
            let mut why = String::new();
            push_text(&mut why, "非法十六进制字符 ");
            push_text(&mut why, quote(digits[i]).as_str());
            assert(why@ =~= "非法十六进制字符 "@ + text::shown(digits@[i as int]));
            return Err(why);
        }
    }
    proof {
        lemma_first_bad(digits@, digits@.len() as int);
    }
    if digits.len() % 2 != 0 {
        return Err("十六进制位数必须为偶数".to_string());
    }
    let mut bytes: Vec<u8> = Vec::new();
    for i in 0..digits.len() / 2
        invariant
            forall|k: int|
                0 <= k < digits@.len() ==> hex_value(#[trigger] digits@[k]) is Some,
            digits@.len() % 2 == 0,
            bytes@.len() == i,
            forall|k: int| 0 <= k < i ==> #[trigger] bytes@[k] == hex_bytes(digits@)[k],
    {
        if let (Some(high), Some(low)) = (
            digit_value(digits[2 * i]),
            digit_value(digits[2 * i + 1]),
        ) {
            bytes.push(high * 16 + low);
        }
    }
    assert(bytes@ =~= hex_bytes(digits@));
    Ok(bytes)
}

/// Reads an input line: the bytes to send, or what is wrong with it.
pub fn parse_input_with(line: &str, mode: InputMode, ending: LineEnding) -> (r: Result<
    Vec<u8>,
    String,
>)
    ensures
        says(r, parsed(line@, mode, ending)),
{
    match mode {
        InputMode::Ascii => {
            if chars_of(line).len() == 0 {
                return Err(empty_input());
            }
            let mut out = slice_to_vec(line.as_bytes());
            match ending {
                LineEnding::Nothing => {},
                LineEnding::Cr => {
                    out.push(0x0D);
                },
                LineEnding::Lf => {
                    out.push(0x0A);
                },
                LineEnding::CrLf => {
                    out.push(0x0D);
                    out.push(0x0A);
                },
            }
            assert(out@ =~= vstd::utf8::encode_utf8(line@) + ending.bytes());
            Ok(out)
        },
        InputMode::Hex => parse_hex(line),
    }
}

/// Reads an input line, with a carriage return behind text where `append_cr`.
pub fn parse_input(line: &str, mode: InputMode, append_cr: bool) -> (r: Result<Vec<u8>, String>)
    ensures
        says(
            r,
            parsed(
                line@,
                mode,
                if append_cr {
                    LineEnding::Cr
                } else {
                    LineEnding::Nothing
                },
            ),
        ),
{
    let ending = if append_cr {
        LineEnding::Cr
    } else {
        LineEnding::Nothing
    };
    parse_input_with(line, mode, ending)
}

/// In hexadecimal the ending plays no part.
pub proof fn law_hex_ignores_the_ending(line: Seq<char>, a: LineEnding, b: LineEnding)
    ensures
        parsed(line, InputMode::Hex, a) == parsed(line, InputMode::Hex, b),
{
}

/// White space between the digits makes no difference in hexadecimal.
pub proof fn law_hex_ignores_white_space(line: Seq<char>, other: Seq<char>, ending: LineEnding)
    requires
        compact(line) == compact(other),
    ensures
        parsed(line, InputMode::Hex, ending) == parsed(other, InputMode::Hex, ending),
{
}

/// The digits of bytes in hexadecimal are two for each byte.
proof fn lemma_hex_text_digits(bytes: Seq<u8>)
    ensures
        compact(record::hex_text(bytes)).len() == 2 * bytes.len(),
        forall|i: int|
            0 <= i < bytes.len() ==> {
                &&& compact(record::hex_text(bytes))[2 * i] == text::hex_byte(#[trigger] bytes[i])[0]
                &&& compact(record::hex_text(bytes))[2 * i + 1] == text::hex_byte(bytes[i])[1]
            },
    decreases bytes.len(),
{
    let keep = |c: char| !text::is_white(c);
    if bytes.len() == 0 {
        reveal(Seq::filter);
    } else {
        let last = text::hex_byte(bytes.last());
        assert(last.filter(keep) =~= last) by {
            reveal_with_fuel(Seq::filter, 3);
            assert(last.drop_last() =~= seq![last[0]]);
            assert(last.drop_last().drop_last() =~= Seq::<char>::empty());
        }
        let less = bytes.drop_last();
        lemma_hex_text_digits(less);
        if bytes.len() == 1 {
            assert(bytes.last() == bytes[0]);
        } else {
            let front = record::hex_text(less);
            assert(front.push(' ').filter(keep) =~= front.filter(keep)) by {
                reveal(Seq::filter);
                assert(front.push(' ').drop_last() =~= front);
            }
            Seq::filter_distributes_over_add(front.push(' '), last, keep);
        }
        assert forall|i: int| 0 <= i < bytes.len() implies {
            &&& compact(record::hex_text(bytes))[2 * i] == text::hex_byte(#[trigger] bytes[i])[0]
            &&& compact(record::hex_text(bytes))[2 * i + 1] == text::hex_byte(bytes[i])[1]
        } by {
            if i < less.len() {
                assert(less[i] == bytes[i]);
            }
        }
    }
}

/// What a hex dump shows can be typed in again: read in hexadecimal, bytes shown
/// in hexadecimal are those bytes.
pub proof fn law_shown_bytes_read_back(bytes: Seq<u8>, ending: LineEnding)
    requires
        bytes.len() > 0,
    ensures
        parsed(record::hex_text(bytes), InputMode::Hex, ending) == Ok::<Seq<u8>, Seq<char>>(bytes),
{
    let digits = compact(record::hex_text(bytes));
    lemma_hex_text_digits(bytes);
    assert forall|k: int| 0 <= k < digits.len() implies hex_value(#[trigger] digits[k]) is Some by {
        let i = k / 2;
        assert(k == 2 * i || k == 2 * i + 1);
        assert(digits[2 * i] == text::hex_byte(bytes[i])[0]);
    }
    lemma_first_bad(digits, digits.len() as int);
    assert forall|i: int| 0 <= i < bytes.len() implies hex_bytes(digits)[i] == bytes[i] by {
        assert(digits[2 * i] == text::hex_byte(bytes[i])[0]);
    }
    assert(hex_bytes(digits) =~= bytes);
}

/// A line read in hexadecimal is refused for the first of its characters that is
/// neither a digit nor white space, and the refusal ends with that character as it was
/// typed, between single quotes.
pub proof fn law_refusal_names_the_digit(line: Seq<char>, ending: LineEnding, i: int)
    requires
        0 <= i < compact(line).len(),
        hex_value(compact(line)[i]) is None,
        forall|k: int| 0 <= k < i ==> hex_value(#[trigger] compact(line)[k]) is Some,
        text::is_plain(compact(line)[i]),
    ensures
        parsed(line, InputMode::Hex, ending) matches Err(why) && seq![
            '\'',
            compact(line)[i],
            '\'',
        ].is_suffix_of(why),
{
    let digits = compact(line);
    lemma_first_bad(digits, i);
    assert(digits.skip(i).first() == digits[i]);
    let why = parsed(line, InputMode::Hex, ending)->Err_0;
    assert(seq!['\'', digits[i], '\''] =~= why.subrange(why.len() - 3, why.len() as int));
}

/// What is said of a line that is no hexadecimal: which character it is that is none, the
/// first of them, however it has to be shown.
pub proof fn law_refusal_shows_the_digit(line: Seq<char>, ending: LineEnding, i: int)
    requires
        0 <= i < compact(line).len(),
        hex_value(compact(line)[i]) is None,
        forall|k: int| 0 <= k < i ==> hex_value(#[trigger] compact(line)[k]) is Some,
    ensures
        parsed(line, InputMode::Hex, ending) == Err::<Seq<u8>, Seq<char>>(
            "非法十六进制字符 "@ + text::shown(compact(line)[i]),
        ),
{
    let digits = compact(line);
    lemma_first_bad(digits, i);
    assert(digits.skip(i).first() == digits[i]);
}

/// A line of text is sent as it was typed, in UTF-8, with the bytes of the ending behind
/// it, however long it is. Only an empty line is refused.
pub proof fn law_text_is_sent_with_its_ending(line: Seq<char>, ending: LineEnding)
    ensures
        line.len() == 0 ==> parsed(line, InputMode::Ascii, ending) == Err::<Seq<u8>, Seq<char>>(
            "输入为空"@,
        ),
        line.len() > 0 ==> (parsed(line, InputMode::Ascii, ending) matches Ok(bytes) && {
            let tail: Seq<u8> = match ending {
                LineEnding::Nothing => Seq::empty(),
                LineEnding::Cr => seq![0x0D],
                LineEnding::Lf => seq![0x0A],
                LineEnding::CrLf => seq![0x0D, 0x0A],
            };
            let text = vstd::utf8::encode_utf8(line);
            &&& bytes.len() == text.len() + tail.len()
            &&& forall|i: int| 0 <= i < text.len() ==> #[trigger] bytes[i] == text[i]
            &&& forall|i: int|
                0 <= i < tail.len() ==> #[trigger] bytes[bytes.len() - tail.len() + i] == tail[i]
        }),
{
}

/// The line can be told from what was sent: two lines that come to the same bytes under
/// one ending are the same.
pub proof fn law_text_can_be_told_from_its_bytes(a: Seq<char>, b: Seq<char>, ending: LineEnding)
    requires
        a.len() > 0,
        b.len() > 0,
        parsed(a, InputMode::Ascii, ending) == parsed(b, InputMode::Ascii, ending),
    ensures
        a == b,
{
    law_text_is_sent_with_its_ending(a, ending);
    law_text_is_sent_with_its_ending(b, ending);
    let x = vstd::utf8::encode_utf8(a);
    let y = vstd::utf8::encode_utf8(b);
    let sent = parsed(a, InputMode::Ascii, ending)->Ok_0;
    assert(x.len() == y.len());
    assert forall|i: int| 0 <= i < x.len() implies x[i] == y[i] by {
        assert(sent[i] == x[i]);
    }
    assert(x =~= y);
    vstd::utf8::encode_utf8_decode_utf8(a);
    vstd::utf8::encode_utf8_decode_utf8(b);
}

/// A line of hexadecimal digits is sent as the bytes that its digits spell two by two,
/// whatever white space stands between them and whatever the case of the letters, and
/// without any ending. It is read exactly where it holds digits, an even number of them,
/// and nothing else but white space.
pub proof fn law_hex_digits_spell_the_bytes(
    line: Seq<char>,
    ending: LineEnding,
    digits: Seq<char>,
    i: int,
)
    requires
        digits == line.filter(|c: char| !text::is_white(c)),
    ensures
        ({
            let is_digit = |c: char|
                0x30 <= c as int <= 0x39 || 0x41 <= c as int <= 0x46 || 0x61 <= c as int <= 0x66;
            let value = |c: char|
                if c as int <= 0x39 {
                    c as int - 0x30
                } else if c as int <= 0x46 {
                    c as int - 0x41 + 10
                } else {
                    c as int - 0x61 + 10
                };
            let all = forall|k: int| 0 <= k < digits.len() ==> is_digit(#[trigger] digits[k]);
            let r = parsed(line, InputMode::Hex, ending);
            &&& r is Ok <==> digits.len() > 0 && all && digits.len() % 2 == 0
            &&& r matches Ok(bytes) ==> bytes.len() == digits.len() / 2 && (0 <= i < bytes.len()
                ==> bytes[i] == value(digits[2 * i]) * 16 + value(digits[2 * i + 1]))
            &&& digits.len() == 0 ==> r == Err::<Seq<u8>, Seq<char>>("输入为空"@)
            &&& all && digits.len() % 2 == 1 ==> r == Err::<Seq<u8>, Seq<char>>(
                "十六进制位数必须为偶数"@,
            )
        }),
{
    let is_digit = |c: char|
        0x30 <= c as int <= 0x39 || 0x41 <= c as int <= 0x46 || 0x61 <= c as int <= 0x66;
    assert forall|c: char| is_digit(c) == (#[trigger] hex_value(c) is Some) by {}
    let good = digits.len() as int;
    if forall|k: int| 0 <= k < digits.len() ==> hex_value(#[trigger] digits[k]) is Some {
        lemma_first_bad(digits, good);
        assert forall|k: int| 0 <= k < digits.len() implies is_digit(#[trigger] digits[k]) by {
            assert(hex_value(digits[k]) is Some);
        }
    } else {
        lemma_some_bad(digits);
        let k = choose|k: int| 0 <= k < digits.len() && hex_value(#[trigger] digits[k]) is None;
        assert(!is_digit(digits[k]));
    }
    if let Ok(bytes) = parsed(line, InputMode::Hex, ending) {
        if 0 <= i < bytes.len() {
            assert(is_digit(digits[2 * i]));
            assert(is_digit(digits[2 * i + 1]));
            assert(hex_value(digits[2 * i]) is Some);
            assert(hex_value(digits[2 * i + 1]) is Some);
        }
    }
}

/// A bad digit is found.
proof fn lemma_some_bad(s: Seq<char>)
    requires
        exists|k: int| 0 <= k < s.len() && hex_value(#[trigger] s[k]) is None,
    ensures
        first_bad(s) is Some,
    decreases s.len(),
{
    let k = choose|k: int| 0 <= k < s.len() && hex_value(#[trigger] s[k]) is None;
    if hex_value(s.first()) is Some {
        assert(s.drop_first()[k - 1] == s[k]);
        lemma_some_bad(s.drop_first());
    }
}

/// The input line with its history.
#[derive(Debug)]
pub struct InputBox {
    pub buffer: String,
    pub mode: InputMode,
    pub history: Vec<String>,
    /// The place in the history; `None` while a new line is being typed.
    pub cursor: Option<usize>,
}

/// What an [`InputBox`] holds.
#[verifier::ext_equal]
pub struct InputView {
    pub buffer: Seq<char>,
    pub mode: InputMode,
    pub history: Seq<Seq<char>>,
    pub cursor: Option<int>,
}

/// What a list of texts holds.
pub open spec fn text_views(texts: Seq<String>) -> Seq<Seq<char>> {
    texts.map_values(|s: String| s@)
}

impl View for InputBox {
    type V = InputView;

    open spec fn view(&self) -> InputView {
        InputView {
            buffer: self.buffer@,
            mode: self.mode,
            history: text_views(self.history@),
            cursor: match self.cursor {
                Some(i) => Some(i as int),
                None => None,
            },
        }
    }
}

impl InputView {
    /// An empty line without history.
    pub open spec fn initial() -> InputView {
        InputView {
            buffer: Seq::empty(),
            mode: InputMode::Ascii,
            history: Seq::empty(),
            cursor: None,
        }
    }

    /// The place in the history exists.
    pub open spec fn wf(self) -> bool {
        self.cursor matches Some(i) ==> 0 <= i < self.history.len()
    }

    /// The line with another text, typed anew.
    pub open spec fn typed(self, buffer: Seq<char>) -> InputView {
        InputView { buffer, cursor: None, ..self }
    }

    /// The line at a place in the history.
    pub open spec fn recalled(self, i: int) -> InputView {
        InputView { buffer: self.history[i], cursor: Some(i), ..self }
    }

    /// The line after its mode was changed.
    pub open spec fn toggled(self) -> InputView {
        InputView { mode: self.mode.other(), ..self }
    }

    /// The line after the last character was taken away, if there was one.
    pub open spec fn shortened(self) -> InputView {
        self.typed(
            if self.buffer.len() > 0 {
                self.buffer.drop_last()
            } else {
                self.buffer
            },
        )
    }

    /// The line after it was handed in: empty, and in the history unless it was
    /// empty or the same as the one before.
    pub open spec fn submitted(self) -> InputView {
        InputView {
            history: if self.buffer.len() == 0 || (self.history.len() > 0 && self.history.last()
                == self.buffer) {
                self.history
            } else {
                self.history.push(self.buffer)
            },
            ..self.typed(Seq::empty())
        }
    }

    /// One step back in the history, to the latest line at first; the earliest
    /// one is the end.
    pub open spec fn earlier(self) -> InputView {
        if self.history.len() == 0 {
            self
        } else {
            match self.cursor {
                None => self.recalled(self.history.len() - 1),
                Some(i) => self.recalled(
                    if i == 0 {
                        0
                    } else {
                        i - 1
                    },
                ),
            }
        }
    }

    /// One step forward in the history; past the latest line to an empty one.
    pub open spec fn later(self) -> InputView {
        match self.cursor {
            None => self,
            Some(i) => if i + 1 >= self.history.len() {
                self.typed(Seq::empty())
            } else {
                self.recalled(i + 1)
            },
        }
    }

    /// No line of the history is empty, and none stands twice in a row.
    pub open spec fn tidy(self) -> bool {
        &&& forall|i: int| 0 <= i < self.history.len() ==> (#[trigger] self.history[i]).len() > 0
        &&& forall|i: int, j: int|
            0 <= i && j == i + 1 && j < self.history.len() ==> #[trigger] self.history[i]
                != #[trigger] self.history[j]
    }
}

impl Default for InputBox {
    fn default() -> (b: Self)
        ensures
            b@ == InputView::initial(),
    {
        let b = InputBox {
            buffer: String::new(),
            mode: InputMode::Ascii,
            history: Vec::new(),
            cursor: None,
        };
        assert(b@ =~= InputView::initial());
        b
    }
}

impl InputBox {
    /// Changes between text and hexadecimal.
    pub fn toggle_mode(&mut self)
        ensures
            final(self)@ == old(self)@.toggled(),
    {
        self.mode = match self.mode {
            InputMode::Ascii => InputMode::Hex,
            InputMode::Hex => InputMode::Ascii,
        };
    }

    /// Types a character.
    pub fn insert(&mut self, c: char)
        ensures
            final(self)@ == old(self)@.typed(old(self)@.buffer.push(c)),
    {
        self.buffer.push(c);
        self.cursor = None;
    }

    /// Takes the last character away.
    pub fn backspace(&mut self)
        ensures
            final(self)@ == old(self)@.shortened(),
    {
        let _ = self.buffer.pop();
        self.cursor = None;
    }

    /// Empties the line.
    pub fn clear(&mut self)
        ensures
            final(self)@ == old(self)@.typed(Seq::empty()),
    {
        self.buffer.clear();
        self.cursor = None;
    }

    /// Hands the line in: puts it into the history, empties it, and gives its
    /// text back.
    pub fn submit(&mut self) -> (line: String)
        ensures
            line@ == old(self)@.buffer,
            final(self)@ == old(self)@.submitted(),
    {
        let line = self.buffer.clone();
        self.buffer.clear();
        let n: usize = self.history.len();
        let repeated = n > 0 && self.history[n - 1] == line;
        if chars_of(line.as_str()).len() > 0 && !repeated {
            self.history.push(line.clone());
        }
        self.cursor = None;
        assert(self@ =~= old(self)@.submitted());
        line
    }

    /// Goes one step back in the history.
    pub fn history_prev(&mut self)
        requires
            old(self)@.wf(),
        ensures
            final(self)@ == old(self)@.earlier(),
    {
        if self.history.len() == 0 {
            return ;
        }
        let next: usize = match self.cursor {
            None => self.history.len() - 1,
            Some(i) => if i == 0 {
                0
            } else {
                i - 1
            },
        };
        self.cursor = Some(next);
        self.buffer = self.history[next].clone();
        assert(self@ =~= old(self)@.earlier());
    }

    /// Goes one step forward in the history.
    pub fn history_next(&mut self)
        requires
            old(self)@.wf(),
        ensures
            final(self)@ == old(self)@.later(),
    {
        if let Some(i) = self.cursor {
            let n: usize = self.history.len();
            if i + 1 >= n {
                self.cursor = None;
                self.buffer.clear();
            } else {
                self.cursor = Some(i + 1);
                self.buffer = self.history[i + 1].clone();
            }
        }
        assert(self@ =~= old(self)@.later());
    }
}

/// Changing the mode twice changes nothing.
pub proof fn law_toggle_twice(b: InputView)
    ensures
        b.toggled().toggled() == b,
{
}

/// Whatever is done to the line, its place in the history exists, and the history
/// holds no empty line and no line twice in a row.
pub proof fn law_history_stays_tidy(b: InputView, c: char)
    requires
        b.wf(),
        b.tidy(),
    ensures
        b.toggled().wf() && b.toggled().tidy(),
        b.typed(b.buffer.push(c)).wf() && b.typed(b.buffer.push(c)).tidy(),
        b.shortened().wf() && b.shortened().tidy(),
        b.typed(Seq::empty()).wf() && b.typed(Seq::empty()).tidy(),
        b.submitted().wf() && b.submitted().tidy(),
        b.earlier().wf() && b.earlier().tidy(),
        b.later().wf() && b.later().tidy(),
{
}

/// A step back and a step forward meet at the same line, except at the ends of
/// the history.
pub proof fn law_history_steps_undo(b: InputView, i: int)
    requires
        b.wf(),
        0 <= i,
        i + 1 < b.history.len(),
    ensures
        b.recalled(i + 1).earlier().later() == b.recalled(i + 1),
        b.recalled(i).later().earlier() == b.recalled(i),
{
}

/// What the keys of the input line do to it. A character goes to the end, Backspace takes
/// the last one away, and emptying takes all; after each of these the line counts as new.
/// Changing the mode changes nothing else.
pub proof fn law_editing_the_line(b: InputView, c: char)
    ensures
        ({
            let t = b.typed(b.buffer.push(c));
            &&& t.buffer.len() == b.buffer.len() + 1 && t.buffer.last() == c
            &&& forall|i: int| 0 <= i < b.buffer.len() ==> #[trigger] t.buffer[i] == b.buffer[i]
            &&& t.cursor is None && t.mode == b.mode && t.history == b.history
        }),
        ({
            let t = b.shortened();
            &&& b.buffer.len() > 0 ==> t.buffer.len() == b.buffer.len() - 1
            &&& b.buffer.len() == 0 ==> t.buffer.len() == 0
            &&& forall|i: int| 0 <= i < t.buffer.len() ==> #[trigger] t.buffer[i] == b.buffer[i]
            &&& t.cursor is None && t.mode == b.mode && t.history == b.history
        }),
        ({
            let t = b.typed(Seq::empty());
            &&& t.buffer.len() == 0 && t.cursor is None && t.mode == b.mode
            &&& t.history == b.history
        }),
        ({
            let t = b.toggled();
            &&& t.mode != b.mode
            &&& t.buffer == b.buffer && t.cursor == b.cursor && t.history == b.history
        }),
{
}

/// A line that is handed in leaves the input empty and in its mode, and is the latest of
/// the history then, which keeps all that it held; but an empty line is not kept, and
/// one that is the latest already is not kept twice.
pub proof fn law_line_goes_into_the_history(b: InputView)
    ensures
        ({
            let t = b.submitted();
            let n = b.history.len();
            let again = n > 0 && b.history[n - 1] == b.buffer;
            &&& t.buffer.len() == 0 && t.cursor is None && t.mode == b.mode
            &&& t.history.len() == n + (if b.buffer.len() == 0 || again {
                0int
            } else {
                1
            })
            &&& forall|i: int| 0 <= i < n ==> #[trigger] t.history[i] == b.history[i]
            &&& b.buffer.len() > 0 ==> t.history.last() == b.buffer
        }),
{
}

/// How the history is walked: back from a new line to the latest, then one by one to the
/// earliest and no further; forward one by one, and past the latest to a new, empty line.
/// The line shown is the one at that place. Mode and history stay.
pub proof fn law_walking_the_history(b: InputView)
    requires
        b.wf(),
    ensures
        ({
            let t = b.earlier();
            let n = b.history.len() as int;
            let at = match b.cursor {
                Some(i) => i,
                None => n,
            };
            let to = if at > 0 {
                at - 1
            } else {
                0
            };
            &&& t.mode == b.mode && t.history == b.history
            &&& n == 0 ==> t == b
            &&& n > 0 ==> t.cursor == Some(to) && t.buffer == b.history[to]
        }),
        ({
            let t = b.later();
            &&& t.mode == b.mode && t.history == b.history
            &&& match b.cursor {
                None => t == b,
                Some(i) => if i + 1 < b.history.len() {
                    t.cursor == Some(i + 1) && t.buffer == b.history[i + 1]
                } else {
                    t.cursor is None && t.buffer.len() == 0
                },
            }
        }),
{
}

/// Which words stand for which ending. Every other word is refused, and shown.
pub proof fn law_words_for_endings(word: Seq<char>)
    ensures
        LineEnding::of_word(word) matches Ok(e) ==> match e {
            LineEnding::Nothing => word == seq!['n', 'o', 'n', 'e'] && e.bytes().len() == 0,
            LineEnding::Cr => word == seq!['c', 'r'] && e.bytes() == seq![0x0Du8],
            LineEnding::Lf => word == seq!['l', 'f'] && e.bytes() == seq![0x0Au8],
            LineEnding::CrLf => word == seq!['c', 'r', 'l', 'f'] && e.bytes() == seq![
                0x0Du8,
                0x0A,
            ],
        },
        LineEnding::of_word(word) matches Err(why) ==> word.is_suffix_of(why),
        LineEnding::of_word(word) is Ok <==> word == seq!['n', 'o', 'n', 'e'] || word == seq![
            'c',
            'r',
        ] || word == seq!['l', 'f'] || word == seq!['c', 'r', 'l', 'f'],
{
    reveal_strlit("none");
    reveal_strlit("cr");
    reveal_strlit("lf");
    reveal_strlit("crlf");
    assert("none"@ =~= seq!['n', 'o', 'n', 'e']);
    assert("cr"@ =~= seq!['c', 'r']);
    assert("lf"@ =~= seq!['l', 'f']);
    assert("crlf"@ =~= seq!['c', 'r', 'l', 'f']);
    if let Err(why) = LineEnding::of_word(word) {
        assert(word =~= why.subrange(why.len() - word.len(), why.len() as int));
    }
}

} // verus!
