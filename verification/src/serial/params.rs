//! How characters go over the line: data bits, parity, stop bits.
//!
//! Written as serial tools write it, `8N1` and the like.
#[allow(unused_imports)]
use crate::text;
use crate::text::{chars_of, push_text, quote, quote_text};
use std::str::FromStr;
use vstd::prelude::*;

verus! {

/// How many bits a character has.
#[derive(Debug, Clone, Copy, PartialEq, Eq, Structural)]
pub enum DataBits {
    Five,
    Six,
    Seven,
    Eight,
}

/// What the parity bit is, if there is one.
#[derive(Debug, Clone, Copy, PartialEq, Eq, Structural)]
pub enum Parity {
    Absent,
    Even,
    Odd,
}

/// How many stop bits there are.
#[derive(Debug, Clone, Copy, PartialEq, Eq, Structural)]
pub enum StopBits {
    One,
    Two,
}

/// The format of a character on the line.
#[derive(Debug, Clone, Copy, PartialEq, Eq, Structural)]
pub struct FrameFormat {
    pub data_bits: DataBits,
    pub parity: Parity,
    pub stop_bits: StopBits,
}

impl Default for FrameFormat {
    fn default() -> (f: Self)
        ensures
            f == (FrameFormat {
                data_bits: DataBits::Eight,
                parity: Parity::Absent,
                stop_bits: StopBits::One,
            }),
    {
        FrameFormat {
            data_bits: DataBits::Eight,
            parity: Parity::Absent,
            stop_bits: StopBits::One,
        }
    }
}

impl DataBits {
    /// The digit for the number of data bits.
    pub open spec fn letter(self) -> char {
        match self {
            DataBits::Five => '5',
            DataBits::Six => '6',
            DataBits::Seven => '7',
            DataBits::Eight => '8',
        }
    }

    /// What a character says about the data bits.
    pub open spec fn of(c: char) -> Option<DataBits> {
        if c == '5' {
            Some(DataBits::Five)
        } else if c == '6' {
            Some(DataBits::Six)
        } else if c == '7' {
            Some(DataBits::Seven)
        } else if c == '8' {
            Some(DataBits::Eight)
        } else {
            None
        }
    }
}

impl Parity {
    /// The letter for the parity.
    pub open spec fn letter(self) -> char {
        match self {
            Parity::Absent => 'N',
            Parity::Even => 'E',
            Parity::Odd => 'O',
        }
    }

    /// What a character of either case says about the parity.
    pub open spec fn of(c: char) -> Option<Parity> {
        if c == 'N' || c == 'n' {
            Some(Parity::Absent)
        } else if c == 'E' || c == 'e' {
            Some(Parity::Even)
        } else if c == 'O' || c == 'o' {
            Some(Parity::Odd)
        } else {
            None
        }
    }
}

impl StopBits {
    /// The digit for the number of stop bits.
    pub open spec fn letter(self) -> char {
        match self {
            StopBits::One => '1',
            StopBits::Two => '2',
        }
    }

    /// What a character says about the stop bits.
    pub open spec fn of(c: char) -> Option<StopBits> {
        if c == '1' {
            Some(StopBits::One)
        } else if c == '2' {
            Some(StopBits::Two)
        } else {
            None
        }
    }
}

impl FrameFormat {
    /// The format in three characters.
    pub open spec fn text(self) -> Seq<char> {
        seq![self.data_bits.letter(), self.parity.letter(), self.stop_bits.letter()]
    }

    /// The format that a text stands for, or what is wrong with the first part of
    /// it that is wrong, as it was written.
    pub open spec fn of_text(s: Seq<char>) -> Result<FrameFormat, Seq<char>> {
        if s.len() != 3 {
            Err("帧格式必须是 3 个字符，如 8N1，收到 "@ + text::shown_text(s))
        } else if DataBits::of(s[0]) is None {
            Err("数据位必须是 5-8，收到 "@ + text::shown(s[0]))
        } else if Parity::of(s[1]) is None {
            Err("校验位必须是 N/E/O，收到 "@ + text::shown(s[1]))
        } else if StopBits::of(s[2]) is None {
            Err("停止位必须是 1 或 2，收到 "@ + text::shown(s[2]))
        } else {
            Ok(
                FrameFormat {
                    data_bits: DataBits::of(s[0])->0,
                    parity: Parity::of(s[1])->0,
                    stop_bits: StopBits::of(s[2])->0,
                },
            )
        }
    }

    /// Whether the character at a position of three is wrong there.
    pub open spec fn wrong_at(s: Seq<char>, i: int) -> bool {
        if i == 0 {
            DataBits::of(s[0]) is None
        } else if i == 1 {
            Parity::of(s[1]) is None
        } else {
            StopBits::of(s[2]) is None
        }
    }

    /// Reads a format.
    pub fn parse(s: &str) -> (r: Result<FrameFormat, String>)
        ensures
            match r {
                Ok(f) => FrameFormat::of_text(s@) == Ok::<FrameFormat, Seq<char>>(f),
                Err(why) => FrameFormat::of_text(s@) == Err::<FrameFormat, Seq<char>>(why@),
            },
    {
        let chars = chars_of(s);
        if chars.len() != 3 {
            let shown = quote_text(s);
            return Err(complaint("帧格式必须是 3 个字符，如 8N1，收到 ", shown.as_str()));
        }
        let data_bits = match chars[0] {
            '5' => DataBits::Five,
            '6' => DataBits::Six,
            '7' => DataBits::Seven,
            '8' => DataBits::Eight,
            c => {
                let shown = quote(c);
                return Err(complaint("数据位必须是 5-8，收到 ", shown.as_str()));
            },
        };
        let parity = match chars[1] {
            'N' | 'n' => Parity::Absent,
            'E' | 'e' => Parity::Even,
            'O' | 'o' => Parity::Odd,
            c => {
                let shown = quote(c);
                return Err(complaint("校验位必须是 N/E/O，收到 ", shown.as_str()));
            },
        };
        let stop_bits = match chars[2] {
            '1' => StopBits::One,
            '2' => StopBits::Two,
            c => {
                let shown = quote(c);
                return Err(complaint("停止位必须是 1 或 2，收到 ", shown.as_str()));
            },
        };
        Ok(FrameFormat { data_bits, parity, stop_bits })
    }

    /// The format in three characters.
    pub fn to_string(&self) -> (s: String)
        ensures
            s@ == self.text(),
    {
        let mut s = String::new();
        s.push(
            match self.data_bits {
                DataBits::Five => '5',
                DataBits::Six => '6',
                DataBits::Seven => '7',
                DataBits::Eight => '8',
            },
        );
        s.push(
            match self.parity {
                Parity::Absent => 'N',
                Parity::Even => 'E',
                Parity::Odd => 'O',
            },
        );
        s.push(
            match self.stop_bits {
                StopBits::One => '1',
                StopBits::Two => '2',
            },
        );
        assert(s@ =~= self.text());
        s
    }
}

/// What is wrong, and with what.
fn complaint(what: &str, with: &str) -> (s: String)
    ensures
        s@ == what@ + with@,
{
    let mut s = String::new();
    push_text(&mut s, what);
    push_text(&mut s, with);
    assert(s@ =~= what@ + with@);
    s
}

impl FromStr for FrameFormat {
    type Err = String;

    /// Reads a format, as [`FrameFormat::parse`] does.
    fn from_str(s: &str) -> (r: Result<Self, String>)
        ensures
            match r {
                Ok(f) => FrameFormat::of_text(s@) == Ok::<FrameFormat, Seq<char>>(f),
                Err(why) => FrameFormat::of_text(s@) == Err::<FrameFormat, Seq<char>>(why@),
            },
    {
        FrameFormat::parse(s)
    }
}

/// What a format is written as reads as that format; and what reads as a format
/// is its writing, but for the case of the parity letter.
pub proof fn law_format_roundtrip(f: FrameFormat, s: Seq<char>)
    ensures
        FrameFormat::of_text(f.text()) == Ok::<FrameFormat, Seq<char>>(f),
        FrameFormat::of_text(s) matches Ok(g) ==> {
            &&& s.len() == 3
            &&& g.text()[0] == s[0]
            &&& g.text()[2] == s[2]
            &&& s[1] == g.parity.letter() || s[1] as int == g.parity.letter() as int + 32
        },
{
}

/// Three characters are refused for the first of them that is wrong in its place, and
/// the refusal ends with that character as it was typed, between single quotes.
pub proof fn law_refusal_names_the_character(s: Seq<char>, i: int)
    requires
        s.len() == 3,
        0 <= i < 3,
        FrameFormat::wrong_at(s, i),
        forall|j: int| 0 <= j < i ==> !#[trigger] FrameFormat::wrong_at(s, j),
        text::is_plain(s[i]),
    ensures
        FrameFormat::of_text(s) matches Err(why) && seq!['\'', s[i], '\''].is_suffix_of(why),
{
    assert(i > 0 ==> !FrameFormat::wrong_at(s, 0));
    assert(i > 1 ==> !FrameFormat::wrong_at(s, 1));
    let why = FrameFormat::of_text(s)->Err_0;
    assert(seq!['\'', s[i], '\''] =~= why.subrange(why.len() - 3, why.len() as int));
}

/// A text of another length is refused, and the refusal ends with the whole of it as
/// it was typed, between double quotes.
pub proof fn law_refusal_shows_the_text(s: Seq<char>)
    requires
        s.len() != 3,
        text::is_plain_text(s),
    ensures
        FrameFormat::of_text(s) matches Err(why) && (seq!['"'] + s + seq!['"']).is_suffix_of(why),
{
    let why = FrameFormat::of_text(s)->Err_0;
    let shown = seq!['"'] + s + seq!['"'];
    assert(shown =~= why.subrange(why.len() - shown.len(), why.len() as int));
}

/// Which texts are formats, and of what: three characters, the number of data bits from
/// `5` to `8`, a letter for the parity in either case, and the number of stop bits.
/// Every other text is refused, for its length or for the first character that is wrong.
pub proof fn law_three_characters_say_the_format(s: Seq<char>)
    ensures
        ({
            let bits = s.len() == 3 && 0x35 <= s[0] as int <= 0x38;
            let parity = s.len() == 3 && seq!['N', 'n', 'E', 'e', 'O', 'o'].contains(s[1]);
            let stops = s.len() == 3 && 0x31 <= s[2] as int <= 0x32;
            let r = FrameFormat::of_text(s);
            &&& r is Ok <==> bits && parity && stops
            &&& r matches Ok(f) ==> {
                &&& s[0] as int - 0x30 == (match f.data_bits {
                    DataBits::Five => 5int,
                    DataBits::Six => 6,
                    DataBits::Seven => 7,
                    DataBits::Eight => 8,
                })
                &&& (match f.parity {
                    Parity::Absent => s[1] == 'N' || s[1] == 'n',
                    Parity::Even => s[1] == 'E' || s[1] == 'e',
                    Parity::Odd => s[1] == 'O' || s[1] == 'o',
                })
                &&& s[2] as int - 0x30 == (match f.stop_bits {
                    StopBits::One => 1int,
                    StopBits::Two => 2,
                })
            }
            &&& r matches Err(why) ==> (if s.len() != 3 {
                "帧格式必须是 3 个字符，如 8N1，收到 "@
            } else if !bits {
                "数据位必须是 5-8，收到 "@
            } else if !parity {
                "校验位必须是 N/E/O，收到 "@
            } else {
                "停止位必须是 1 或 2，收到 "@
            }).is_prefix_of(why)
        }),
{
    let letters = seq!['N', 'n', 'E', 'e', 'O', 'o'];
    assert(letters[0] == 'N' && letters[1] == 'n' && letters[2] == 'E' && letters[3] == 'e'
        && letters[4] == 'O' && letters[5] == 'o');
    if let Err(why) = FrameFormat::of_text(s) {
        let what = if s.len() != 3 {
            "帧格式必须是 3 个字符，如 8N1，收到 "@
        } else if DataBits::of(s[0]) is None {
            "数据位必须是 5-8，收到 "@
        } else if Parity::of(s[1]) is None {
            "校验位必须是 N/E/O，收到 "@
        } else {
            "停止位必须是 1 或 2，收到 "@
        };
        assert(what =~= why.subrange(0, what.len() as int));
    }
}

/// How a format is written: the number of data bits, a capital for the parity, the number
/// of stop bits.
pub proof fn law_format_is_written(f: FrameFormat)
    ensures
        f.text().len() == 3,
        f.text()[0] as int == 0x30 + (match f.data_bits {
            DataBits::Five => 5int,
            DataBits::Six => 6,
            DataBits::Seven => 7,
            DataBits::Eight => 8,
        }),
        f.text()[1] == (match f.parity {
            Parity::Absent => 'N',
            Parity::Even => 'E',
            Parity::Odd => 'O',
        }),
        f.text()[2] as int == 0x30 + (match f.stop_bits {
            StopBits::One => 1int,
            StopBits::Two => 2,
        }),
{
}

} // verus!
