//! Messages of the control channel, carried in UIH frames on DLCI 0.
//!
//! A message is a type byte (EA and C/R in the low two bits), a length byte with
//! the EA bit set, and the payload. MSC, CLD and NSC are understood; every other
//! type is kept as it came so that it can be shown.
use crate::mux::frame::copy_bytes;
#[allow(unused_imports)]
use crate::text;
use crate::text::{push_decimal, push_hex, push_text};
use vstd::prelude::*;
use vstd::slice::{slice_subrange, slice_to_vec};
use vstd::string::*;

verus! {

/// Type bits, without EA and C/R.
pub const TYPE_NSC: u8 = 0x08;

pub const TYPE_MSC: u8 = 0xE0;

pub const TYPE_CLD: u8 = 0xC0;

/// The name of a type of control message, if it has one.
pub open spec fn name_of_type(ctype: u8) -> Option<Seq<char>> {
    if ctype == TYPE_NSC {
        Some("NSC"@)
    } else if ctype == 0x10 {
        Some("Test"@)
    } else if ctype == 0x20 {
        Some("PSC"@)
    } else if ctype == 0x28 {
        Some("RLS"@)
    } else if ctype == 0x30 {
        Some("FCoff"@)
    } else if ctype == 0x40 {
        Some("PN"@)
    } else if ctype == 0x48 {
        Some("RPN"@)
    } else if ctype == 0x50 {
        Some("FCon"@)
    } else if ctype == 0x68 {
        Some("SNC"@)
    } else if ctype == TYPE_CLD {
        Some("CLD"@)
    } else if ctype == TYPE_MSC {
        Some("MSC"@)
    } else {
        None
    }
}

/// The name of a type of control message. Only three types are understood, but
/// all of them have a name to show.
fn message_name(ctype: u8) -> (r: Option<&'static str>)
    ensures
        match r {
            Some(name) => name_of_type(ctype) == Some(name@),
            None => name_of_type(ctype) is None,
        },
{
    match ctype {
        0x08 => Some("NSC"),
        0x10 => Some("Test"),
        0x20 => Some("PSC"),
        0x28 => Some("RLS"),
        0x30 => Some("FCoff"),
        0x40 => Some("PN"),
        0x48 => Some("RPN"),
        0x50 => Some("FCon"),
        0x68 => Some("SNC"),
        0xC0 => Some("CLD"),
        0xE0 => Some("MSC"),
        _ => None,
    }
}

/// A message of the control channel.
#[derive(Debug, PartialEq, Eq)]
pub enum ControlMessage {
    /// Modem status; `signals` is the V.24 signal byte.
    Msc { dlci: u8, signals: u8 },
    /// Close down the multiplexer.
    Cld,
    /// The peer does not support the command of this type byte.
    Nsc { rejected: u8 },
    /// A type that is not understood.
    Unknown { ctype: u8, data: Vec<u8> },
}

/// What a [`ControlMessage`] holds.
#[verifier::ext_equal]
pub enum ControlView {
    Msc { dlci: u8, signals: u8 },
    Cld,
    Nsc { rejected: u8 },
    Unknown { ctype: u8, data: Seq<u8> },
}

impl View for ControlMessage {
    type V = ControlView;

    open spec fn view(&self) -> ControlView {
        match self {
            ControlMessage::Msc { dlci, signals } => ControlView::Msc {
                dlci: *dlci,
                signals: *signals,
            },
            ControlMessage::Cld => ControlView::Cld,
            ControlMessage::Nsc { rejected } => ControlView::Nsc { rejected: *rejected },
            ControlMessage::Unknown { ctype, data } => ControlView::Unknown {
                ctype: *ctype,
                data: data@,
            },
        }
    }
}

impl Clone for ControlMessage {
    fn clone(&self) -> (m: Self)
        ensures
            m@ == self@,
    {
        match self {
            ControlMessage::Msc { dlci, signals } => ControlMessage::Msc {
                dlci: *dlci,
                signals: *signals,
            },
            ControlMessage::Cld => ControlMessage::Cld,
            ControlMessage::Nsc { rejected } => ControlMessage::Nsc { rejected: *rejected },
            ControlMessage::Unknown { ctype, data } => ControlMessage::Unknown {
                ctype: *ctype,
                data: copy_bytes(data),
            },
        }
    }
}

impl ControlView {
    /// The type bits of the message.
    pub open spec fn ctype(self) -> u8 {
        match self {
            ControlView::Msc { .. } => TYPE_MSC,
            ControlView::Cld => TYPE_CLD,
            ControlView::Nsc { .. } => TYPE_NSC,
            ControlView::Unknown { ctype, .. } => ctype,
        }
    }

    /// The payload of the message. In an MSC the DLCI takes the high six bits of
    /// an address byte whose low two bits are set.
    pub open spec fn payload(self) -> Seq<u8> {
        match self {
            ControlView::Msc { dlci, signals } => seq![(dlci % 64 * 4 + 3) as u8, signals],
            ControlView::Cld => Seq::empty(),
            ControlView::Nsc { rejected } => seq![rejected],
            ControlView::Unknown { data, .. } => data,
        }
    }

    /// The message as a command: C/R and EA set in the type byte, seven bits of
    /// length above the EA bit, payload.
    pub open spec fn command(self) -> Seq<u8> {
        seq![
            (self.ctype() / 4 * 4 + 3) as u8,
            (self.payload().len() % 128 * 2 + 1) as u8,
        ] + self.payload()
    }

    /// The message of a type and a payload.
    pub open spec fn of(ctype: u8, payload: Seq<u8>) -> ControlView {
        if ctype == TYPE_MSC && payload.len() >= 2 {
            ControlView::Msc { dlci: payload[0] / 4, signals: payload[1] }
        } else if ctype == TYPE_CLD {
            ControlView::Cld
        } else if ctype == TYPE_NSC && payload.len() >= 1 {
            ControlView::Nsc { rejected: payload[0] }
        } else {
            ControlView::Unknown { ctype, data: payload }
        }
    }

    /// The message at the start of `info` and whether it is a command; `None`
    /// where `info` is too short for a header or for the length it announces.
    /// Bytes behind the announced length are not looked at.
    pub open spec fn parsed(info: Seq<u8>) -> Option<(ControlView, bool)> {
        if info.len() < 2 || info.len() < 2 + info[1] / 2 {
            None
        } else {
            Some(
                (
                    ControlView::of((info[0] / 4 * 4) as u8, info.subrange(2, 2 + info[1] / 2)),
                    info[0] / 2 % 2 == 1,
                ),
            )
        }
    }

    /// Whether the message is one that can stand on the wire: its DLCI has six
    /// bits, its length seven, and a type that is understood is not wrapped up as
    /// an unknown one.
    pub open spec fn canonical(self) -> bool {
        match self {
            ControlView::Msc { dlci, .. } => dlci < 64,
            ControlView::Unknown { ctype, data } => {
                &&& ctype % 4 == 0
                &&& data.len() < 128
                &&& ControlView::of(ctype, data) == self
            },
            _ => true,
        }
    }

    /// The message in words.
    pub open spec fn described(self) -> Seq<char> {
        match self {
            ControlView::Msc { dlci, signals } => "MSC DLCI "@ + text::decimal(dlci as nat)
                + " 信号 0x"@ + text::hex_byte(signals),
            ControlView::Cld => "CLD 关闭复用"@,
            ControlView::Nsc { rejected } => match name_of_type((rejected / 4 * 4) as u8) {
                Some(name) => "NSC 对端不支持 "@ + name,
                None => "NSC 对端不支持 type=0x"@ + text::hex_byte(rejected),
            },
            ControlView::Unknown { ctype, data } => match name_of_type(ctype) {
                Some(name) => name + "（本工具未解析）"@ + text::decimal(data.len()) + " 字节"@,
                None => "未知控制消息 type=0x"@ + text::hex_byte(ctype) + " "@
                    + text::decimal(data.len()) + " 字节"@,
            },
        }
    }
}

impl ControlMessage {
    /// Encodes the message as a command.
    pub fn encode_command(&self) -> (out: Vec<u8>)
        ensures
            out@ == self@.command(),
    {
        let (ctype, payload): (u8, Vec<u8>) = match self {
            ControlMessage::Msc { dlci, signals } => {
                let d: u8 = *dlci;
                assert((d << 2) | 0x03 == (d % 64) * 4 + 3) by (bit_vector);
                let mut p: Vec<u8> = Vec::new();
                p.push((d << 2) | 0x03);
                p.push(*signals);
                assert(p@ =~= self@.payload());
                (TYPE_MSC, p)
            },
            ControlMessage::Cld => (TYPE_CLD, Vec::new()),
            ControlMessage::Nsc { rejected } => {
                let mut p: Vec<u8> = Vec::new();
                p.push(*rejected);
                assert(p@ =~= self@.payload());
                (TYPE_NSC, p)
            },
            ControlMessage::Unknown { ctype, data } => (*ctype, copy_bytes(data)),
        };
        assert(payload@ =~= self@.payload());
        assert(ctype | 0x03 == ctype / 4 * 4 + 3) by (bit_vector);
        let len: usize = payload.len();
        assert(((#[verifier::truncate] (len as u8)) << 1) | 0x01 == (len % 128) * 2 + 1)
            by (bit_vector);
        let mut out: Vec<u8> = Vec::new();
        out.push(ctype | 0x03);
        out.push(((#[verifier::truncate] (len as u8)) << 1) | 0x01);
        out.extend_from_slice(payload.as_slice());
        assert(out@ =~= self@.command());
        out
    }

    /// Reads a control message: the message and whether it is a command.
    pub fn parse(info: &[u8]) -> (r: Option<(ControlMessage, bool)>)
        ensures
            match r {
                Some((msg, is_command)) => ControlView::parsed(info@) == Some((msg@, is_command)),
                None => ControlView::parsed(info@) is None,
            },
    {
        if info.len() < 2 {
            return None;
        }
        let type_byte: u8 = info[0];
        assert((type_byte & 0x02 != 0) == (type_byte / 2 % 2 == 1)) by (bit_vector);
        assert(type_byte & !0x03u8 == type_byte / 4 * 4) by (bit_vector);
        let is_command = type_byte & 0x02 != 0;
        let ctype: u8 = type_byte & !0x03u8;
        let second: u8 = info[1];
        assert(second >> 1 == second / 2) by (bit_vector);
        let len: usize = (second >> 1) as usize;
        if info.len() < 2 + len {
            return None;
        }
        let payload = slice_subrange(info, 2, 2 + len);
        let msg = if ctype == TYPE_MSC && payload.len() >= 2 {
            let address: u8 = payload[0];
            assert(address >> 2 == address / 4) by (bit_vector);
            ControlMessage::Msc { dlci: address >> 2, signals: payload[1] }
        } else if ctype == TYPE_CLD {
            ControlMessage::Cld
        } else if ctype == TYPE_NSC && payload.len() > 0 {
            ControlMessage::Nsc { rejected: payload[0] }
        } else {
            ControlMessage::Unknown { ctype, data: slice_to_vec(payload) }
        };
        assert(msg@ =~= ControlView::of(ctype, payload@));
        Some((msg, is_command))
    }

    /// The message in words, for the screen.
    pub fn describe(&self) -> (s: String)
        ensures
            s@ == self@.described(),
    {
        let mut s = String::new();
        match self {
            ControlMessage::Msc { dlci, signals } => {
                push_text(&mut s, "MSC DLCI ");
                push_decimal(&mut s, *dlci as u64);
                push_text(&mut s, " 信号 0x");
                push_hex(&mut s, *signals);
            },
            ControlMessage::Cld => {
                push_text(&mut s, "CLD 关闭复用");
            },
            ControlMessage::Nsc { rejected } => {
                let r: u8 = *rejected;
                assert(r & !0x03u8 == r / 4 * 4) by (bit_vector);
                match message_name(r & !0x03u8) {
                    Some(name) => {
                        push_text(&mut s, "NSC 对端不支持 ");
                        push_text(&mut s, name);
                    },
                    None => {
                        push_text(&mut s, "NSC 对端不支持 type=0x");
                        push_hex(&mut s, r);
                    },
                }
            },
            ControlMessage::Unknown { ctype, data } => match message_name(*ctype) {
                Some(name) => {
                    push_text(&mut s, name);
                    push_text(&mut s, "（本工具未解析）");
                    push_decimal(&mut s, data.len() as u64);
                    push_text(&mut s, " 字节");
                },
                None => {
                    push_text(&mut s, "未知控制消息 type=0x");
                    push_hex(&mut s, *ctype);
                    push_text(&mut s, " ");
                    push_decimal(&mut s, data.len() as u64);
                    push_text(&mut s, " 字节");
                },
            },
        }
        assert(s@ =~= self@.described());
        s
    }
}

/// What is parsed out of a command is the message that was encoded, whatever
/// bytes follow it; a command cut short at any point is refused.
pub proof fn law_control_roundtrip(m: ControlView, behind: Seq<u8>, cut: int)
    requires
        m.canonical(),
        0 <= cut < m.command().len(),
    ensures
        ControlView::parsed(m.command() + behind) == Some((m, true)),
        ControlView::parsed(m.command().take(cut)) is None,
{
    let whole = m.command() + behind;
    assert(whole[1] / 2 == m.payload().len());
    assert(whole.subrange(2, 2 + whole[1] / 2) =~= m.payload());
}

/// Every message that comes out of the parser is canonical.
pub proof fn law_parsed_is_canonical(info: Seq<u8>)
    ensures
        ControlView::parsed(info) matches Some((m, _)) ==> m.canonical(),
{
}

/// The bytes of a control message: a type byte with C/R and EA set, one byte with the
/// length above the EA bit, and then, for modem status the address of the channel with its
/// low two bits set and the signals, for a refusal the type byte that was refused, and for
/// closing down nothing.
pub proof fn law_bytes_of_a_message(m: ControlView)
    ensures
        m matches ControlView::Msc { dlci, signals } ==> m.command() == seq![
            0xE3u8,
            5,
            (dlci % 64 * 4 + 3) as u8,
            signals,
        ],
        m is Cld ==> m.command() == seq![0xC3u8, 1],
        m matches ControlView::Nsc { rejected } ==> m.command() == seq![0x0Bu8, 3, rejected],
        m matches ControlView::Unknown { ctype, data } ==> {
            let bytes = m.command();
            &&& bytes.len() == data.len() + 2
            &&& bytes[0] / 4 == ctype / 4 && bytes[0] % 4 == 3
            &&& bytes[1] % 2 == 1 && bytes[1] / 2 == data.len() % 128
            &&& forall|i: int| 0 <= i < data.len() ==> #[trigger] bytes[i + 2] == data[i]
        },
{
    assert(m matches ControlView::Msc { dlci, signals } ==> m.command() =~= seq![
        0xE3u8,
        5,
        (dlci % 64 * 4 + 3) as u8,
        signals,
    ]);
    assert(m is Cld ==> m.command() =~= seq![0xC3u8, 1]);
    assert(m matches ControlView::Nsc { rejected } ==> m.command() =~= seq![0x0Bu8, 3, rejected]);
}

/// What is read out of the information of a frame on the control channel, said of the
/// bytes alone. It is read exactly where it holds the length that it announces. The C/R
/// bit tells a command, and the six bits above it which message it is.
pub proof fn law_what_control_bytes_say(info: Seq<u8>)
    ensures
        ControlView::parsed(info) is Some <==> info.len() >= 2 && info.len() >= 2 + info[1] / 2,
        ControlView::parsed(info) matches Some((m, is_command)) ==> {
            let n = info[1] as int / 2;
            let kind = info[0] as int / 4;
            &&& is_command == (info[0] % 4 >= 2)
            &&& if kind == 0x38 && n >= 2 {
                m == (ControlView::Msc { dlci: info[2] / 4, signals: info[3] })
            } else if kind == 0x30 {
                m == ControlView::Cld
            } else if kind == 0x02 && n >= 1 {
                m == (ControlView::Nsc { rejected: info[2] })
            } else {
                m matches ControlView::Unknown { ctype, data } && ctype == kind * 4 && data.len()
                    == n && forall|i: int| 0 <= i < n ==> #[trigger] data[i] == info[i + 2]
            }
        },
{
}

/// What a control message is in words: its name, and what it says. A type that is not
/// understood has its name where it has one, else its type in hexadecimal, and the number
/// of its bytes.
pub proof fn law_words_for_a_message(m: ControlView)
    ensures
        m matches ControlView::Msc { dlci, signals } ==> {
            let head = "MSC DLCI "@ + text::decimal(dlci as nat) + " 信号 0x"@;
            &&& head.is_prefix_of(m.described())
            &&& m.described().len() == head.len() + 2
            &&& text::shows_digit(m.described()[head.len() as int], signals as int / 16)
            &&& text::shows_digit(m.described()[head.len() as int + 1], signals as int % 16)
        },
        m is Cld ==> m.described() == "CLD 关闭复用"@,
        m matches ControlView::Nsc { rejected } ==> match rejected / 4 {
            0x02 => m.described() == "NSC 对端不支持 "@ + "NSC"@,
            0x04 => m.described() == "NSC 对端不支持 "@ + "Test"@,
            0x08 => m.described() == "NSC 对端不支持 "@ + "PSC"@,
            0x0A => m.described() == "NSC 对端不支持 "@ + "RLS"@,
            0x0C => m.described() == "NSC 对端不支持 "@ + "FCoff"@,
            0x10 => m.described() == "NSC 对端不支持 "@ + "PN"@,
            0x12 => m.described() == "NSC 对端不支持 "@ + "RPN"@,
            0x14 => m.described() == "NSC 对端不支持 "@ + "FCon"@,
            0x1A => m.described() == "NSC 对端不支持 "@ + "SNC"@,
            0x30 => m.described() == "NSC 对端不支持 "@ + "CLD"@,
            0x38 => m.described() == "NSC 对端不支持 "@ + "MSC"@,
            _ => m.described() == "NSC 对端不支持 type=0x"@ + text::hex_byte(rejected),
        },
        m matches ControlView::Unknown { ctype, data } ==> {
            let size = text::decimal(data.len()) + " 字节"@;
            match ctype {
                0x08 => m.described() == "NSC"@ + "（本工具未解析）"@ + size,
                0x10 => m.described() == "Test"@ + "（本工具未解析）"@ + size,
                0x20 => m.described() == "PSC"@ + "（本工具未解析）"@ + size,
                0x28 => m.described() == "RLS"@ + "（本工具未解析）"@ + size,
                0x30 => m.described() == "FCoff"@ + "（本工具未解析）"@ + size,
                0x40 => m.described() == "PN"@ + "（本工具未解析）"@ + size,
                0x48 => m.described() == "RPN"@ + "（本工具未解析）"@ + size,
                0x50 => m.described() == "FCon"@ + "（本工具未解析）"@ + size,
                0x68 => m.described() == "SNC"@ + "（本工具未解析）"@ + size,
                0xC0 => m.described() == "CLD"@ + "（本工具未解析）"@ + size,
                0xE0 => m.described() == "MSC"@ + "（本工具未解析）"@ + size,
                _ => m.described() == "未知控制消息 type=0x"@ + text::hex_byte(ctype) + " "@ + size,
            }
        },
{
    match m {
        ControlView::Msc { dlci, signals } => {
            text::law_hex_digits(signals);
            let head = "MSC DLCI "@ + text::decimal(dlci as nat) + " 信号 0x"@;
            assert(head =~= m.described().subrange(0, head.len() as int));
        },
        ControlView::Unknown { ctype, data } => {
            let size = text::decimal(data.len()) + " 字节"@;
            match name_of_type(ctype) {
                Some(name) => {
                    assert(m.described() =~= name + "（本工具未解析）"@ + size);
                },
                None => {
                    assert(m.described() =~= "未知控制消息 type=0x"@ + text::hex_byte(ctype) + " "@
                        + size);
                },
            }
        },
        _ => {},
    }
}

} // verus!
