//! Frames of the Basic mode and their encoding on the wire.
use crate::mux::fcs;
use vstd::prelude::*;

verus! {

/// The byte that opens and closes a frame.
pub const FLAG: u8 = 0xF9;

/// The kind of a frame: its control byte without the P/F bit.
#[derive(Debug, Clone, Copy, PartialEq, Eq, Structural)]
pub enum FrameType {
    Sabm,
    Ua,
    Dm,
    Disc,
    Uih,
}

impl FrameType {
    /// The control byte of the kind with the P/F bit clear.
    pub open spec fn base(self) -> u8 {
        match self {
            FrameType::Sabm => 0x2F,
            FrameType::Ua => 0x63,
            FrameType::Dm => 0x0F,
            FrameType::Disc => 0x43,
            FrameType::Uih => 0xEF,
        }
    }

    /// The control byte of the kind; the P/F bit is worth 0x10.
    pub open spec fn control(self, pf: bool) -> u8 {
        if pf {
            (self.base() + 0x10) as u8
        } else {
            self.base()
        }
    }

    /// What a control byte stands for, if for anything.
    pub open spec fn of_control(c: u8) -> Option<(FrameType, bool)> {
        if c == 0x2F || c == 0x3F {
            Some((FrameType::Sabm, c == 0x3F))
        } else if c == 0x63 || c == 0x73 {
            Some((FrameType::Ua, c == 0x73))
        } else if c == 0x0F || c == 0x1F {
            Some((FrameType::Dm, c == 0x1F))
        } else if c == 0x43 || c == 0x53 {
            Some((FrameType::Disc, c == 0x53))
        } else if c == 0xEF || c == 0xFF {
            Some((FrameType::Uih, c == 0xFF))
        } else {
            None
        }
    }

    /// The short name of the kind.
    pub open spec fn text(self) -> Seq<char> {
        match self {
            FrameType::Sabm => "SABM"@,
            FrameType::Ua => "UA"@,
            FrameType::Dm => "DM"@,
            FrameType::Disc => "DISC"@,
            FrameType::Uih => "UIH"@,
        }
    }

    /// Builds the control byte, with the P/F bit set when `pf`.
    pub fn control_byte(self, pf: bool) -> (c: u8)
        ensures
            c == self.control(pf),
    {
        let base: u8 = match self {
            FrameType::Sabm => 0x2F,
            FrameType::Ua => 0x63,
            FrameType::Dm => 0x0F,
            FrameType::Disc => 0x43,
            FrameType::Uih => 0xEF,
        };
        assert(base & 0x10 == 0 ==> (base | 0x10) == base + 0x10 && (base & !0x10u8) == base)
            by (bit_vector);
        assert(0x2Fu8 & 0x10 == 0 && 0x63u8 & 0x10 == 0 && 0x0Fu8 & 0x10 == 0 && 0x43u8 & 0x10 == 0
            && 0xEFu8 & 0x10 == 0) by (bit_vector);
        if pf {
            base | 0x10
        } else {
            base & !0x10u8
        }
    }

    /// Reads a control byte: its kind and P/F bit, or `None` when the byte is
    /// the control byte of no kind.
    pub fn from_control(c: u8) -> (r: Option<(FrameType, bool)>)
        ensures
            r == FrameType::of_control(c),
    {
        let pf = c & 0x10 != 0;
        let rest: u8 = c & !0x10u8;
        assert(c & 0x10 != 0 ==> c == (c & !0x10u8) + 0x10) by (bit_vector);
        assert(c & 0x10 == 0 ==> c == (c & !0x10u8)) by (bit_vector);
        assert((c & !0x10u8) & 0x10 == 0) by (bit_vector);
        let ft = match rest {
            0x2F => FrameType::Sabm,
            0x63 => FrameType::Ua,
            0x0F => FrameType::Dm,
            0x43 => FrameType::Disc,
            0xEF => FrameType::Uih,
            _ => {
                assert(c == 0x2F || c == 0x3F ==> c & !0x10u8 == 0x2F) by (bit_vector);
                assert(c == 0x63 || c == 0x73 ==> c & !0x10u8 == 0x63) by (bit_vector);
                assert(c == 0x0F || c == 0x1F ==> c & !0x10u8 == 0x0F) by (bit_vector);
                assert(c == 0x43 || c == 0x53 ==> c & !0x10u8 == 0x43) by (bit_vector);
                assert(c == 0xEF || c == 0xFF ==> c & !0x10u8 == 0xEF) by (bit_vector);
                return None;
            },
        };
        Some((ft, pf))
    }

    /// The short name, for the raw frame view.
    pub fn name(self) -> (r: &'static str)
        ensures
            r@ == self.text(),
    {
        match self {
            FrameType::Sabm => "SABM",
            FrameType::Ua => "UA",
            FrameType::Dm => "DM",
            FrameType::Disc => "DISC",
            FrameType::Uih => "UIH",
        }
    }
}

/// Reading a control byte undoes building it, and building undoes reading.
pub proof fn law_control_byte_roundtrip(ft: FrameType, pf: bool, c: u8)
    ensures
        FrameType::of_control(ft.control(pf)) == Some((ft, pf)),
        FrameType::of_control(c) matches Some((kind, bit)) ==> kind.control(bit) == c,
{
}

/// A Basic mode frame.
#[derive(Debug, PartialEq, Eq)]
pub struct Frame {
    pub dlci: u8,
    /// Command/response bit.
    pub cr: bool,
    /// Poll/final bit.
    pub pf: bool,
    pub ftype: FrameType,
    pub info: Vec<u8>,
}

/// What a [`Frame`] holds.
#[verifier::ext_equal]
pub struct FrameView {
    pub dlci: u8,
    pub cr: bool,
    pub pf: bool,
    pub ftype: FrameType,
    pub info: Seq<u8>,
}

impl View for Frame {
    type V = FrameView;

    open spec fn view(&self) -> FrameView {
        FrameView {
            dlci: self.dlci,
            cr: self.cr,
            pf: self.pf,
            ftype: self.ftype,
            info: self.info@,
        }
    }
}

impl Clone for Frame {
    fn clone(&self) -> (f: Self)
        ensures
            f@ == self@,
    {
        Frame {
            dlci: self.dlci,
            cr: self.cr,
            pf: self.pf,
            ftype: self.ftype,
            info: copy_bytes(&self.info),
        }
    }
}

/// The length field: one byte with the EA bit set up to 127, else two bytes,
/// low seven bits first with the EA bit clear. The second byte holds eight bits
/// and no more.
pub open spec fn length_field(len: nat) -> Seq<u8> {
    if len <= 127 {
        seq![(len * 2 + 1) as u8]
    } else {
        seq![(len % 128 * 2) as u8, (len / 128 % 256) as u8]
    }
}

impl FrameView {
    /// DLCI in the high six bits, then the C/R bit, then EA.
    pub open spec fn address(self) -> u8 {
        (self.dlci % 64 * 4 + (if self.cr {
            2int
        } else {
            0
        }) + 1) as u8
    }

    /// Address, control and length.
    pub open spec fn header(self) -> Seq<u8> {
        seq![self.address(), self.ftype.control(self.pf)] + length_field(self.info.len())
    }

    /// The bytes under the check byte: the header alone for UIH, header and
    /// information for every other kind.
    pub open spec fn checked(self) -> Seq<u8> {
        if self.ftype == FrameType::Uih {
            self.header()
        } else {
            self.header() + self.info
        }
    }

    /// Everything between the two flags.
    pub open spec fn body(self) -> Seq<u8> {
        (self.header() + self.info).push(fcs::fcs_of(self.checked()))
    }

    /// The whole frame on the wire.
    pub open spec fn wire(self) -> Seq<u8> {
        (seq![FLAG] + self.body()).push(FLAG)
    }

    pub open spec fn sabm(dlci: u8) -> FrameView {
        FrameView { dlci, cr: true, pf: true, ftype: FrameType::Sabm, info: Seq::empty() }
    }

    pub open spec fn ua(dlci: u8) -> FrameView {
        FrameView { dlci, cr: true, pf: true, ftype: FrameType::Ua, info: Seq::empty() }
    }

    pub open spec fn disc(dlci: u8) -> FrameView {
        FrameView { dlci, cr: true, pf: true, ftype: FrameType::Disc, info: Seq::empty() }
    }

    pub open spec fn uih(dlci: u8, info: Seq<u8>) -> FrameView {
        FrameView { dlci, cr: true, pf: false, ftype: FrameType::Uih, info }
    }
}

impl Frame {
    /// A request to open a channel.
    pub fn sabm(dlci: u8) -> (f: Frame)
        ensures
            f@ == FrameView::sabm(dlci),
    {
        Frame { dlci, cr: true, pf: true, ftype: FrameType::Sabm, info: Vec::new() }
    }

    /// The acknowledgement of a SABM or a DISC.
    pub fn ua(dlci: u8) -> (f: Frame)
        ensures
            f@ == FrameView::ua(dlci),
    {
        Frame { dlci, cr: true, pf: true, ftype: FrameType::Ua, info: Vec::new() }
    }

    /// A request to close a channel.
    pub fn disc(dlci: u8) -> (f: Frame)
        ensures
            f@ == FrameView::disc(dlci),
    {
        Frame { dlci, cr: true, pf: true, ftype: FrameType::Disc, info: Vec::new() }
    }

    /// A data frame.
    pub fn uih(dlci: u8, info: Vec<u8>) -> (f: Frame)
        ensures
            f@ == FrameView::uih(dlci, info@),
    {
        Frame { dlci, cr: true, pf: false, ftype: FrameType::Uih, info }
    }

    /// The address byte.
    pub fn address_byte(&self) -> (b: u8)
        ensures
            b == self@.address(),
    {
        let d: u8 = self.dlci;
        assert(((d << 2) | 2u8) | 1 == d % 64 * 4 + 3) by (bit_vector);
        assert(((d << 2) | 0u8) | 1 == d % 64 * 4 + 1) by (bit_vector);
        (self.dlci << 2) | (if self.cr {
            0x02
        } else {
            0x00
        }) | 0x01
    }

    /// Whether the check byte covers the information field.
    fn fcs_covers_info(&self) -> (b: bool)
        ensures
            b == (self.ftype != FrameType::Uih),
    {
        self.ftype != FrameType::Uih
    }

    /// The bytes on the wire, both flags included.
    pub fn encode(&self) -> (out: Vec<u8>)
        ensures
            out@ == self@.wire(),
    {
        let len: usize = self.info.len();
        let mut header: Vec<u8> = Vec::with_capacity(4);
        header.push(self.address_byte());
        header.push(self.ftype.control_byte(self.pf));
        if len <= 127 {
            let l: u8 = len as u8;
            assert(l <= 127 ==> (l << 1) | 1 == l * 2 + 1) by (bit_vector);
            header.push((l << 1) | 0x01);
        } else {
            let low: u8 = len as u8;
            let high: u8 = (len >> 7) as u8;
            assert(((len as u8) & 0x7F) << 1 == len % 128 * 2) by (bit_vector);
            assert((len >> 7) as u8 == len / 128 % 256) by (bit_vector);
            header.push((low & 0x7F) << 1);
            header.push(high);
        }
        assert(header@ =~= self@.header());

        let checksum: u8 = if self.fcs_covers_info() {
            let mut buf: Vec<u8> = Vec::new();
            buf.extend_from_slice(header.as_slice());
            buf.extend_from_slice(self.info.as_slice());
            assert(buf@ =~= self@.header() + self@.info);
            fcs::fcs(buf.as_slice())
        } else {
            fcs::fcs(header.as_slice())
        };

        let mut out: Vec<u8> = Vec::new();
        out.push(FLAG);
        out.extend_from_slice(header.as_slice());
        out.extend_from_slice(self.info.as_slice());
        out.push(checksum);
        out.push(FLAG);
        assert(out@ =~= self@.wire());
        out
    }
}

/// A copy of a byte vector.
pub fn copy_bytes(bytes: &Vec<u8>) -> (r: Vec<u8>)
    ensures
        r@ == bytes@,
{
    let mut r: Vec<u8> = Vec::new();
    r.extend_from_slice(bytes.as_slice());
    assert(r@ =~= bytes@);
    r
}

/// The low six bits of the DLCI survive in the address byte, beside C/R and EA.
pub proof fn law_address_holds_dlci(f: FrameView)
    requires
        f.dlci < 64,
    ensures
        f.address() / 4 == f.dlci,
        f.address() / 2 % 2 == (if f.cr {
            1int
        } else {
            0
        }),
        f.address() % 2 == 1,
{
}

/// A length that fits 15 bits is announced exactly; the EA bit tells the one-byte
/// form from the two-byte form.
pub proof fn law_length_field_is_exact(len: nat)
    requires
        len < 32768,
    ensures
        len <= 127 ==> length_field(len).len() == 1 && length_field(len)[0] / 2 == len
            && length_field(len)[0] % 2 == 1,
        len > 127 ==> length_field(len).len() == 2 && length_field(len)[0] / 2 + length_field(
            len,
        )[1] * 128 == len && length_field(len)[0] % 2 == 0,
{
}

/// Where everything stands on the wire: a flag, the address with the DLCI in its high
/// six bits, the control byte of the kind, one or two bytes of length, the information
/// as it is, the check byte, a flag. The check byte is what polynomial division leaves
/// over from the header, and for every kind but UIH from header and information.
pub proof fn law_wire_layout(f: FrameView)
    ensures
        ({
            let wire = f.wire();
            let n = f.info.len();
            let h: int = if n <= 127 {
                3
            } else {
                4
            };
            &&& wire.len() == h + n + 3
            &&& wire[0] == 0xF9
            &&& wire[h + n + 2] == 0xF9
            &&& wire[1] == f.dlci % 64 * 4 + (if f.cr {
                2int
            } else {
                0
            }) + 1
            &&& wire[2] == (match f.ftype {
                FrameType::Sabm => 0x2Fint,
                FrameType::Ua => 0x63,
                FrameType::Dm => 0x0F,
                FrameType::Disc => 0x43,
                FrameType::Uih => 0xEF,
            }) + (if f.pf {
                0x10int
            } else {
                0
            })
            &&& n <= 127 ==> wire[3] == 2 * n + 1
            &&& n > 127 ==> wire[3] == n % 128 * 2 && wire[4] == n / 128 % 256
            &&& forall|i: int| 0 <= i < n ==> #[trigger] wire[1 + h + i] == f.info[i]
            &&& fcs::is_multiple(
                wire.subrange(
                    1,
                    if f.ftype == FrameType::Uih {
                        1 + h
                    } else {
                        1 + h + n
                    },
                ),
                wire[1 + h + n],
            )
        }),
{
    let wire = f.wire();
    let n = f.info.len();
    let h = f.header().len() as int;
    assert(wire.subrange(1, 1 + h) =~= f.header());
    assert(wire.subrange(1, 1 + h + n) =~= f.header() + f.info);
    fcs::law_check_byte_is_the_remainder(f.checked(), wire[1 + h + n]);
}

/// The frames that open, confirm, close and carry data: commands, with the poll bit on
/// all but data, and with nothing but the data inside.
pub proof fn law_frames_of_the_link(dlci: u8, data: Seq<u8>)
    ensures
        ({
            let f = FrameView::sabm(dlci);
            f.ftype == FrameType::Sabm && f.dlci == dlci && f.cr && f.pf && f.info.len() == 0
        }),
        ({
            let f = FrameView::ua(dlci);
            f.ftype == FrameType::Ua && f.dlci == dlci && f.cr && f.pf && f.info.len() == 0
        }),
        ({
            let f = FrameView::disc(dlci);
            f.ftype == FrameType::Disc && f.dlci == dlci && f.cr && f.pf && f.info.len() == 0
        }),
        ({
            let f = FrameView::uih(dlci, data);
            f.ftype == FrameType::Uih && f.dlci == dlci && f.cr && !f.pf && f.info == data
        }),
{
}

} // verus!
