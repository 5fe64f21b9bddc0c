//! One thing that happened on a channel, and how its bytes are shown.
use crate::clock::Timestamp;
use crate::mux::frame::copy_bytes;
#[allow(unused_imports)]
use crate::text;
use crate::text::{push_decimal, push_hex, push_repeated, push_text};
use vstd::prelude::*;
use vstd::slice::slice_subrange;
use vstd::string::*;

verus! {

/// Where a record comes from.
#[derive(Debug, Clone, Copy, PartialEq, Eq, Structural)]
pub enum Direction {
    Tx,
    Rx,
    /// A note of the tool itself.
    Info,
    /// An error.
    Error,
}

impl Direction {
    /// The two characters that stand for the direction.
    pub open spec fn text(self) -> Seq<char> {
        match self {
            Direction::Tx => "TX"@,
            Direction::Rx => "RX"@,
            Direction::Info => "--"@,
            Direction::Error => "!!"@,
        }
    }

    /// The two characters that stand for the direction.
    pub fn label(self) -> (r: &'static str)
        ensures
            r@ == self.text(),
    {
        match self {
            Direction::Tx => "TX",
            Direction::Rx => "RX",
            Direction::Info => "--",
            Direction::Error => "!!",
        }
    }
}

/// One thing that happened on a channel.
#[derive(Debug)]
pub struct Record {
    pub ts: Timestamp,
    pub dir: Direction,
    pub dlci: u8,
    pub bytes: Vec<u8>,
    /// The words of a note or an error.
    pub note: Option<String>,
}

/// What a [`Record`] holds.
#[verifier::ext_equal]
pub struct RecordView {
    pub ts: Timestamp,
    pub dir: Direction,
    pub dlci: u8,
    pub bytes: Seq<u8>,
    pub note: Option<Seq<char>>,
}

/// What an optional text holds.
pub open spec fn text_view(t: Option<String>) -> Option<Seq<char>> {
    match t {
        Some(s) => Some(s@),
        None => None,
    }
}

impl View for Record {
    type V = RecordView;

    open spec fn view(&self) -> RecordView {
        RecordView {
            ts: self.ts,
            dir: self.dir,
            dlci: self.dlci,
            bytes: self.bytes@,
            note: text_view(self.note),
        }
    }
}

/// A copy of an optional text.
pub fn copy_text(t: &Option<String>) -> (r: Option<String>)
    ensures
        text_view(r) == text_view(*t),
{
    match t {
        Some(s) => Some(s.clone()),
        None => None,
    }
}

impl Clone for Record {
    fn clone(&self) -> (r: Self)
        ensures
            r@ == self@,
    {
        Record {
            ts: self.ts,
            dir: self.dir,
            dlci: self.dlci,
            bytes: copy_bytes(&self.bytes),
            note: copy_text(&self.note),
        }
    }
}

impl RecordView {
    /// A record of bytes.
    pub open spec fn data(ts: Timestamp, dir: Direction, dlci: u8, bytes: Seq<u8>) -> RecordView {
        RecordView { ts, dir, dlci, bytes, note: None }
    }

    /// A record of words.
    pub open spec fn words(
        ts: Timestamp,
        dir: Direction,
        dlci: u8,
        words: Seq<char>,
    ) -> RecordView {
        RecordView { ts, dir, dlci, bytes: Seq::empty(), note: Some(words) }
    }

    /// Direction, then the note, or the number of bytes.
    pub open spec fn summary(self) -> Seq<char> {
        self.dir.text() + " "@ + (match self.note {
            Some(note) => note,
            None => text::decimal(self.bytes.len()) + "B"@,
        })
    }

    /// The head line: time, direction, then the note or the number of bytes.
    pub open spec fn head(self) -> Seq<char> {
        self.ts.time() + " "@ + self.summary()
    }
}

impl Record {
    /// A record of bytes at a given time.
    pub fn data_at(ts: Timestamp, dir: Direction, dlci: u8, bytes: Vec<u8>) -> (r: Record)
        ensures
            r@ == RecordView::data(ts, dir, dlci, bytes@),
    {
        Record { ts, dir, dlci, bytes, note: None }
    }

    /// A record of words at a given time.
    pub fn words_at(ts: Timestamp, dir: Direction, dlci: u8, words: &str) -> (r: Record)
        ensures
            r@ == RecordView::words(ts, dir, dlci, words@),
    {
        let r = Record { ts, dir, dlci, bytes: Vec::new(), note: Some(words.to_string()) };
        assert(r@ =~= RecordView::words(ts, dir, dlci, words@));
        r
    }

    /// A record of bytes, now.
    pub fn new(dir: Direction, dlci: u8, bytes: Vec<u8>) -> (r: Record)
        ensures
            r@ == RecordView::data(r.ts, dir, dlci, bytes@),
    {
        Record::data_at(Timestamp::now(), dir, dlci, bytes)
    }

    /// A note, now: words and no bytes.
    pub fn info(dlci: u8, words: &str) -> (r: Record)
        ensures
            r@ == RecordView::words(r.ts, Direction::Info, dlci, words@),
    {
        Record::words_at(Timestamp::now(), Direction::Info, dlci, words)
    }

    /// An error, now.
    pub fn error(dlci: u8, words: &str) -> (r: Record)
        ensures
            r@ == RecordView::words(r.ts, Direction::Error, dlci, words@),
    {
        Record::words_at(Timestamp::now(), Direction::Error, dlci, words)
    }

    /// Direction, then the note, or the number of bytes.
    pub fn summary(&self) -> (s: String)
        ensures
            s@ == self@.summary(),
    {
        let mut s = String::new();
        push_text(&mut s, self.dir.label());
        push_text(&mut s, " ");
        match &self.note {
            Some(note) => {
                push_text(&mut s, note.as_str());
            },
            None => {
                push_decimal(&mut s, self.bytes.len() as u64);
                push_text(&mut s, "B");
            },
        }
        assert(s@ =~= self@.summary());
        s
    }

    /// The head line, as in `19:04:12.331 TX 8B`; a note takes the place of the
    /// number of bytes.
    pub fn header(&self) -> (s: String)
        ensures
            s@ == self@.head(),
    {
        let mut s = self.ts.time_text();
        push_text(&mut s, " ");
        push_text(&mut s, self.summary().as_str());
        assert(s@ =~= self@.head());
        s
    }
}

/// Bytes cut into pieces of `n`, the last one perhaps shorter.
pub open spec fn pieces(bytes: Seq<u8>, n: nat) -> Seq<Seq<u8>>
    decreases bytes.len(),
{
    if bytes.len() == 0 || n == 0 {
        Seq::empty()
    } else if bytes.len() <= n {
        seq![bytes]
    } else {
        seq![bytes.take(n as int)] + pieces(bytes.skip(n as int), n)
    }
}

/// Bytes in hexadecimal, with one space between two.
pub open spec fn hex_text(bytes: Seq<u8>) -> Seq<char>
    decreases bytes.len(),
{
    if bytes.len() == 0 {
        Seq::empty()
    } else if bytes.len() == 1 {
        text::hex_byte(bytes[0])
    } else {
        hex_text(bytes.drop_last()).push(' ') + text::hex_byte(bytes.last())
    }
}

/// A text filled up with spaces to a width.
pub open spec fn padded(s: Seq<char>, width: nat) -> Seq<char> {
    if s.len() < width {
        s + Seq::new((width - s.len()) as nat, |i: int| ' ')
    } else {
        s
    }
}

/// A byte as a character, a dot where it cannot be printed.
pub open spec fn printable(b: u8) -> char {
    if 0x20 <= b <= 0x7E {
        b as char
    } else {
        '.'
    }
}

/// Bytes as characters, dots where they cannot be printed.
pub open spec fn ascii_text(bytes: Seq<u8>) -> Seq<char> {
    bytes.map_values(|b: u8| printable(b))
}

/// The two columns of one line of a hex dump.
pub open spec fn dump_line(piece: Seq<u8>, per_line: nat) -> (Seq<char>, Seq<char>) {
    (padded(hex_text(piece), (per_line * 3 - 1) as nat), ascii_text(piece))
}

/// A hex dump: a pair of columns for each piece of `per_line` bytes.
pub open spec fn dump(bytes: Seq<u8>, per_line: nat) -> Seq<(Seq<char>, Seq<char>)> {
    pieces(bytes, per_line).map_values(|p: Seq<u8>| dump_line(p, per_line))
}

/// What pairs of texts hold.
pub open spec fn pair_views(lines: Seq<(String, String)>) -> Seq<(Seq<char>, Seq<char>)> {
    lines.map_values(|l: (String, String)| (l.0@, l.1@))
}

/// Two characters and a space for each byte but the last.
proof fn lemma_hex_text_len(bytes: Seq<u8>)
    ensures
        hex_text(bytes).len() == (if bytes.len() == 0 {
            0int
        } else {
            bytes.len() * 3 - 1
        }),
    decreases bytes.len(),
{
    if bytes.len() > 1 {
        lemma_hex_text_len(bytes.drop_last());
    }
}

/// Bytes in hexadecimal, with one space between two.
pub fn hex_string(bytes: &[u8]) -> (s: String)
    ensures
        s@ == hex_text(bytes@),
{
    let mut s = String::new();
    for i in 0..bytes.len()
        invariant
            s@ == hex_text(bytes@.take(i as int)),
    {
        if i > 0 {
            s.push(' ');
        }
        push_hex(&mut s, bytes[i]);
        assert(bytes@.take(i + 1).drop_last() =~= bytes@.take(i as int));
        assert(s@ =~= hex_text(bytes@.take(i + 1)));
    }
    assert(bytes@.take(bytes@.len() as int) =~= bytes@);
    s
}

/// Bytes as characters, dots where they cannot be printed.
pub fn ascii_string(bytes: &[u8]) -> (s: String)
    ensures
        s@ == ascii_text(bytes@),
{
    let mut s = String::new();
    for i in 0..bytes.len()
        invariant
            s@ == ascii_text(bytes@.take(i as int)),
    {
        let b: u8 = bytes[i];
        if 0x20 <= b && b <= 0x7E {
            s.push(b as char);
        } else {
            s.push('.');
        }
        assert(s@ =~= ascii_text(bytes@.take(i + 1)));
    }
    assert(bytes@.take(bytes@.len() as int) =~= bytes@);
    s
}

/// Cuts bytes into pairs of a hexadecimal and a character column. The first
/// column is filled up with spaces, so that the second one lines up.
pub fn hexdump_lines(bytes: &[u8], per_line: usize) -> (lines: Vec<(String, String)>)
    requires
        1 <= per_line,
        per_line * 3 <= usize::MAX,
    ensures
        pair_views(lines@) == dump(bytes@, per_line as nat),
{
    let width: usize = per_line * 3 - 1;
    let mut lines: Vec<(String, String)> = Vec::new();
    let mut start: usize = 0;
    assert(bytes@.skip(0) =~= bytes@);
    assert(pair_views(lines@) + dump(bytes@, per_line as nat) =~= dump(bytes@, per_line as nat));
    while start < bytes.len()
        invariant
            1 <= per_line,
            per_line * 3 <= usize::MAX,
            width == per_line * 3 - 1,
            start <= bytes@.len(),
            pair_views(lines@) + dump(bytes@.skip(start as int), per_line as nat) == dump(
                bytes@,
                per_line as nat,
            ),
        decreases bytes@.len() - start,
    {
        let end: usize = if bytes.len() - start > per_line {
            start + per_line
        } else {
            bytes.len()
        };
        let piece = slice_subrange(bytes, start, end);
        let mut hex = hex_string(piece);
        let hex_len: usize = piece.len() * 3 - 1;
        proof {
            lemma_hex_text_len(piece@);
        }
        push_repeated(&mut hex, ' ', width - hex_len);
        assert(hex@ =~= padded(hex_text(piece@), width as nat));
        let ascii = ascii_string(piece);
        let ghost before = lines@;
        lines.push((hex, ascii));
        proof {
            let n = per_line as nat;
            let rest = bytes@.skip(start as int);
            assert(piece@ =~= rest.take(piece@.len() as int));
            assert(bytes@.skip(end as int) =~= rest.skip(piece@.len() as int));
            assert(pair_views(lines@) =~= pair_views(before).push(dump_line(piece@, n)));
            assert(rest.take(rest.len() as int) =~= rest);
            if rest.len() <= n {
                assert(pieces(rest.skip(piece@.len() as int), n) =~= Seq::<Seq<u8>>::empty());
            }
            assert(pieces(rest, n) =~= seq![piece@] + pieces(rest.skip(piece@.len() as int), n));
            assert(dump(rest, n) =~= seq![dump_line(piece@, n)] + dump(
                rest.skip(piece@.len() as int),
                n,
            ));
            assert(pair_views(lines@) + dump(bytes@.skip(end as int), n) =~= pair_views(before)
                + dump(rest, n));
        }
        start = end;
    }
    assert(bytes@.skip(start as int) =~= Seq::empty());
    assert(pair_views(lines@) =~= pair_views(lines@) + dump(Seq::empty(), per_line as nat));
    lines
}

/// Every hexadecimal column of a dump has the same width, and no byte is lost or
/// moved: the pieces, put together, are the bytes, and all but the last are full.
pub proof fn law_hexdump_is_aligned_and_complete(bytes: Seq<u8>, per_line: nat)
    requires
        per_line >= 1,
    ensures
        pieces(bytes, per_line).flatten() == bytes,
        dump(bytes, per_line).len() == (bytes.len() + per_line - 1) / (per_line as int),
        forall|i: int|
            #![trigger dump(bytes, per_line)[i]]
            0 <= i < dump(bytes, per_line).len() ==> dump(bytes, per_line)[i].0.len() == per_line * 3
                - 1,
        forall|i: int|
            #![trigger dump(bytes, per_line)[i]]
            0 <= i < dump(bytes, per_line).len() - 1 ==> dump(bytes, per_line)[i].1.len()
                == per_line,
    decreases bytes.len(),
{
    let all = pieces(bytes, per_line);
    if bytes.len() == 0 {
        assert(all.flatten() =~= bytes);
        assert((per_line - 1) / (per_line as int) == 0) by (nonlinear_arith)
            requires
                per_line >= 1,
        ;
    } else if bytes.len() <= per_line {
        all.lemma_flatten_one_element();
        lemma_hex_text_len(bytes);
        let m = bytes.len() as int;
        let n = per_line as int;
        assert((m + n - 1) / n == 1) by (nonlinear_arith)
            requires
                1 <= m <= n,
        ;
    } else {
        let head = bytes.take(per_line as int);
        let rest = bytes.skip(per_line as int);
        let others = pieces(rest, per_line);
        law_hexdump_is_aligned_and_complete(rest, per_line);
        lemma_hex_text_len(head);
        assert(all.drop_first() =~= others);
        assert(all.first() == head);
        assert(all.flatten() =~= head + others.flatten());
        assert(head + rest =~= bytes);
        let m = rest.len() as int;
        let n = per_line as int;
        assert((m + n + n - 1) / n == (m + n - 1) / n + 1) by (nonlinear_arith)
            requires
                n >= 1,
                m >= 0,
        ;
        assert forall|i: int|
            #![trigger dump(bytes, per_line)[i]]
            0 <= i < dump(bytes, per_line).len() implies dump(bytes, per_line)[i].0.len() == per_line
            * 3 - 1 && (i < dump(bytes, per_line).len() - 1 ==> dump(bytes, per_line)[i].1.len()
            == per_line) by {
            if i > 0 {
                assert(dump(bytes, per_line)[i] == dump(rest, per_line)[i - 1]);
            }
        }
    }
}

/// The digits of the bytes stand three places apart, with a space between.
proof fn lemma_hex_places(bytes: Seq<u8>, i: int)
    requires
        0 <= i < bytes.len(),
    ensures
        hex_text(bytes)[3 * i] == text::hex_byte(bytes[i])[0],
        hex_text(bytes)[3 * i + 1] == text::hex_byte(bytes[i])[1],
        i + 1 < bytes.len() ==> hex_text(bytes)[3 * i + 2] == ' ',
    decreases bytes.len(),
{
    lemma_hex_text_len(bytes);
    if bytes.len() > 1 {
        let front = bytes.drop_last();
        lemma_hex_text_len(front);
        let head = hex_text(front).push(' ');
        assert(head.len() == 3 * front.len());
        if i < front.len() {
            lemma_hex_places(front, i);
            assert(front[i] == bytes[i]);
        }
    }
}

/// Piece `k` begins at byte `k * n`.
proof fn lemma_pieces_places(bytes: Seq<u8>, n: nat, k: int)
    requires
        n >= 1,
        0 <= k,
        k * n < bytes.len(),
    ensures
        k < pieces(bytes, n).len(),
        pieces(bytes, n)[k] == bytes.subrange(
            k * n,
            if (k + 1) * n < bytes.len() {
                (k + 1) * n
            } else {
                bytes.len() as int
            },
        ),
    decreases bytes.len(),
{
    let all = pieces(bytes, n);
    assert((k + 1) * n == k * n + n) by (nonlinear_arith);
    if bytes.len() <= n {
        assert(k == 0) by (nonlinear_arith)
            requires
                0 <= k,
                n >= 1,
                k * n < bytes.len(),
                bytes.len() <= n,
        ;
        assert(bytes.subrange(0, bytes.len() as int) =~= bytes);
    } else {
        let rest = bytes.skip(n as int);
        assert(all.drop_first() =~= pieces(rest, n));
        if k == 0 {
            assert(bytes.take(n as int) =~= bytes.subrange(0, n as int));
        } else {
            assert((k - 1) * n == k * n - n) by (nonlinear_arith);
            assert(0 <= (k - 1) * n) by (nonlinear_arith)
                requires
                    k >= 1,
                    n >= 1,
            ;
            lemma_pieces_places(rest, n, k - 1);
            assert(all[k] == pieces(rest, n)[k - 1]);
            let to = if (k + 1) * n < bytes.len() {
                (k + 1) * n
            } else {
                bytes.len() as int
            };
            assert(rest.subrange((k - 1) * n, to - n) =~= bytes.subrange(k * n, to));
        }
    }
}

/// Where each byte stands in a hex dump: byte `i` is on line `i / n`, its two
/// hexadecimal digits at three times its place there, and its character at its place in
/// the second column: the byte itself where that is printable ASCII, and a dot exactly
/// where it is not.
pub proof fn law_every_byte_has_its_place(bytes: Seq<u8>, n: nat, i: int)
    requires
        n >= 1,
        0 <= i < bytes.len(),
    ensures
        ({
            let line = dump(bytes, n)[i / n as int];
            let at = i % n as int;
            let b = bytes[i] as int;
            &&& i / (n as int) < dump(bytes, n).len()
            &&& at < line.1.len()
            &&& 3 * at + 1 < line.0.len()
            &&& text::shows_digit(line.0[3 * at], b / 16)
            &&& text::shows_digit(line.0[3 * at + 1], b % 16)
            &&& 0x20 <= b <= 0x7E ==> line.1[at] as int == b
            &&& !(0x20 <= b <= 0x7E) ==> line.1[at] == '.'
        }),
{
    let k = i / n as int;
    let at = i % n as int;
    assert(i == k * n + at && 0 <= at < n && 0 <= k) by (nonlinear_arith)
        requires
            n >= 1,
            0 <= i,
            k == i / n as int,
            at == i % n as int,
    ;
    assert((k + 1) * n == k * n + n) by (nonlinear_arith);
    lemma_pieces_places(bytes, n, k);
    let piece = pieces(bytes, n)[k];
    assert(piece[at] == bytes[i]);
    lemma_hex_text_len(piece);
    lemma_hex_places(piece, at);
    text::law_hex_digits(bytes[i]);
    assert(3 * at + 1 < hex_text(piece).len());
    let line = dump_line(piece, n);
    assert(dump(bytes, n)[k] == line);
    assert(line.0[3 * at] == hex_text(piece)[3 * at]);
    assert(line.0[3 * at + 1] == hex_text(piece)[3 * at + 1]);
}

/// What stands in a hex dump beside the digits is blank: every place of the first column
/// that is not one of the two of a byte of its line is a space, and the second column
/// holds one character for each byte of its line and no more.
pub proof fn law_all_else_is_blank(bytes: Seq<u8>, n: nat, k: int, c: int)
    requires
        n >= 1,
        0 <= k < dump(bytes, n).len(),
    ensures
        ({
            let line = dump(bytes, n)[k];
            let held: int = if (k + 1) * n <= bytes.len() {
                n as int
            } else {
                bytes.len() - k * n
            };
            &&& dump(bytes, n).len() == (bytes.len() + n - 1) / (n as int)
            &&& 1 <= held <= n
            &&& line.0.len() == 3 * n - 1
            &&& line.1.len() == held
            &&& 0 <= c < line.0.len() && (c % 3 == 2 || c >= 3 * held) ==> line.0[c] == ' '
        }),
{
    law_hexdump_is_aligned_and_complete(bytes, n);
    let count = dump(bytes, n).len() as int;
    assert((k + 1) * n == k * n + n) by (nonlinear_arith);
    assert(0 <= k * n < bytes.len()) by (nonlinear_arith)
        requires
            n >= 1,
            0 <= k < count,
            count == (bytes.len() + n - 1) / (n as int),
    ;
    lemma_pieces_places(bytes, n, k);
    let piece = pieces(bytes, n)[k];
    let line = dump_line(piece, n);
    assert(dump(bytes, n)[k] == line);
    lemma_hex_text_len(piece);
    if 0 <= c < 3 * piece.len() - 1 && c % 3 == 2 {
        let i = c / 3;
        assert(c == 3 * i + 2);
        lemma_hex_places(piece, i);
    }
}

/// What the head of a record says: hours, minutes, seconds and milliseconds of its time
/// in decimal, where it comes from in two letters, and then its words, or where it has
/// none the number of its bytes and a `B`.
pub proof fn law_head_of_a_record(rec: RecordView)
    requires
        0 <= rec.ts.nanos() < 1_000_000_000,
    ensures
        ({
            let head = rec.head();
            let t = rec.ts.secs() as int % 86400;
            let ms = rec.ts.nanos() as int / 1_000_000;
            let value = |i: int| head[i] as int - 48;
            let two = match rec.dir {
                Direction::Tx => ('T', 'X'),
                Direction::Rx => ('R', 'X'),
                Direction::Info => ('-', '-'),
                Direction::Error => ('!', '!'),
            };
            &&& head.len() >= 16
            &&& value(0) * 10 + value(1) == t / 3600 && 0 <= value(1) <= 9
            &&& head[2] == ':'
            &&& value(3) * 10 + value(4) == t / 60 % 60 && 0 <= value(4) <= 9
            &&& head[5] == ':'
            &&& value(6) * 10 + value(7) == t % 60 && 0 <= value(7) <= 9
            &&& head[8] == '.'
            &&& value(9) * 100 + value(10) * 10 + value(11) == ms && 0 <= value(10) <= 9 && 0
                <= value(11) <= 9
            &&& head[12] == ' '
            &&& (head[13], head[14]) == two
            &&& head[15] == ' '
            &&& head.skip(16) == (match rec.note {
                Some(words) => words,
                None => text::decimal(rec.bytes.len()).push('B'),
            })
            &&& head.skip(13) == rec.summary()
        }),
{
    reveal_strlit("TX");
    reveal_strlit("RX");
    reveal_strlit("--");
    reveal_strlit("!!");
    reveal_strlit(" ");
    reveal_strlit("B");
    let head = rec.head();
    assert(rec.ts.time().len() == 12);
    assert(rec.dir.text().len() == 2);
    assert(head.skip(13) =~= rec.summary());
    assert(head.skip(16) =~= (match rec.note {
        Some(words) => words,
        None => text::decimal(rec.bytes.len()).push('B'),
    }));
    assert(head[13] == rec.dir.text()[0]);
    assert(head[14] == rec.dir.text()[1]);
}

/// A record is what it was made of: bytes without words, or words without bytes.
pub proof fn law_what_a_record_holds(
    ts: Timestamp,
    dir: Direction,
    dlci: u8,
    bytes: Seq<u8>,
    words: Seq<char>,
)
    ensures
        ({
            let r = RecordView::data(ts, dir, dlci, bytes);
            r.ts == ts && r.dir == dir && r.dlci == dlci && r.bytes == bytes && r.note is None
        }),
        ({
            let r = RecordView::words(ts, dir, dlci, words);
            r.ts == ts && r.dir == dir && r.dlci == dlci && r.bytes.len() == 0 && r.note == Some(
                words,
            )
        }),
{
}

/// Where each byte stands on its own: in hexadecimal at three times its place, in two
/// digits with one space between two bytes; as a character at its place, the byte itself
/// where that is printable ASCII, and a dot exactly where it is not.
pub proof fn law_every_byte_is_shown(bytes: Seq<u8>, i: int)
    ensures
        hex_text(bytes).len() == (if bytes.len() == 0 {
            0
        } else {
            3 * bytes.len() - 1
        }),
        ascii_text(bytes).len() == bytes.len(),
        0 <= i < bytes.len() ==> {
            let b = bytes[i] as int;
            &&& text::shows_digit(hex_text(bytes)[3 * i], b / 16)
            &&& text::shows_digit(hex_text(bytes)[3 * i + 1], b % 16)
            &&& i + 1 < bytes.len() ==> hex_text(bytes)[3 * i + 2] == ' '
            &&& 0x20 <= b <= 0x7E ==> ascii_text(bytes)[i] as int == b
            &&& !(0x20 <= b <= 0x7E) ==> ascii_text(bytes)[i] == '.'
        },
{
    lemma_hex_text_len(bytes);
    if 0 <= i < bytes.len() {
        lemma_hex_places(bytes, i);
        text::law_hex_digits(bytes[i]);
    }
}

} // verus!
