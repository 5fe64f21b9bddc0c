//! The text of a session log.
use crate::app::record::{hexdump_lines, Record, RecordView};
#[allow(unused_imports)]
use crate::app::record;
#[allow(unused_imports)]
use crate::clock;
use crate::clock::Timestamp;
#[allow(unused_imports)]
use crate::text;
use crate::text::{push_decimal, push_text};
use vstd::prelude::*;

verus! {

/// The line that opens a session in a log.
pub open spec fn opening(ts: Timestamp) -> Seq<char> {
    "==== cmux-tui 会话日志 "@ + clock::strftime(ts.secs(), ts.nanos(), "%Y-%m-%d %H:%M:%S"@)
        + " ====\n"@
}

/// A line of a hex dump in a log.
pub open spec fn dump_text(line: (Seq<char>, Seq<char>)) -> Seq<char> {
    "    "@ + line.0 + "  |"@ + line.1 + "|\n"@
}

/// Lines of a hex dump in a log.
pub open spec fn dump_texts(lines: Seq<(Seq<char>, Seq<char>)>) -> Seq<char>
    decreases lines.len(),
{
    if lines.len() == 0 {
        Seq::empty()
    } else {
        dump_texts(lines.drop_last()) + dump_text(lines.last())
    }
}

/// A record in a log: a head line, then its bytes sixteen to a line.
pub open spec fn entry(rec: RecordView) -> Seq<char> {
    rec.ts.time() + " DLCI "@ + text::decimal(rec.dlci as nat) + " "@ + rec.summary() + "\n"@
        + dump_texts(record::dump(rec.bytes, 16))
}

/// The line that opens a session in a log.
pub fn opening_line(ts: &Timestamp) -> (s: String)
    ensures
        s@ == opening(*ts),
{
    let mut s = String::new();
    push_text(&mut s, "==== cmux-tui 会话日志 ");
    push_text(&mut s, ts.date_time().as_str());
    push_text(&mut s, " ====\n");
    assert(s@ =~= opening(*ts));
    s
}

/// A record in a log: a head line, then its bytes sixteen to a line.
pub fn record_text(rec: &Record) -> (s: String)
    ensures
        s@ == entry(rec@),
{
    let mut s = rec.ts.time_text();
    push_text(&mut s, " DLCI ");
    push_decimal(&mut s, rec.dlci as u64);
    push_text(&mut s, " ");
    push_text(&mut s, rec.summary().as_str());
    push_text(&mut s, "\n");
    let ghost head = s@;
    let lines = hexdump_lines(rec.bytes.as_slice(), 16);
    let ghost views = record::pair_views(lines@);
    for i in 0..lines.len()
        invariant
            views == record::pair_views(lines@),
            s@ == head + dump_texts(views.take(i as int)),
    {
        let ghost before = s@;
        push_text(&mut s, "    ");
        push_text(&mut s, lines[i].0.as_str());
        push_text(&mut s, "  |");
        push_text(&mut s, lines[i].1.as_str());
        push_text(&mut s, "|\n");
        assert(s@ =~= before + dump_text(views[i as int]));
        assert(views.take(i + 1).drop_last() =~= views.take(i as int));
        assert(s@ =~= head + dump_texts(views.take(i + 1)));
    }
    assert(views.take(views.len() as int) =~= views);
    assert(s@ =~= entry(rec@));
    s
}

/// How long the head line of a record is in a log, its line break counted.
pub open spec fn head_size(rec: RecordView) -> int {
    rec.head().len() as int + 7 + text::decimal(rec.dlci as nat).len()
}

/// Each line of a dump stands behind those before it, which are 72 characters each.
proof fn lemma_dump_places(lines: Seq<(Seq<char>, Seq<char>)>, k: int, c: int)
    requires
        0 <= k < lines.len(),
        forall|j: int| #![trigger lines[j]] 0 <= j < lines.len() ==> lines[j].0.len() == 47,
        forall|j: int| #![trigger lines[j]] 0 <= j < lines.len() - 1 ==> lines[j].1.len() == 16,
        0 <= c < dump_text(lines[k]).len(),
    ensures
        dump_texts(lines).len() == 72 * (lines.len() - 1) + 56 + lines.last().1.len(),
        dump_texts(lines)[72 * k + c] == dump_text(lines[k])[c],
    decreases lines.len(),
{
    reveal_strlit("    ");
    reveal_strlit("  |");
    reveal_strlit("|\n");
    let front = lines.drop_last();
    assert(lines[lines.len() - 1] == lines.last());
    assert(dump_text(lines.last()).len() == 56 + lines.last().1.len());
    if front.len() == 0 {
        assert(dump_texts(front) =~= Seq::empty());
    } else {
        assert forall|j: int| #![trigger front[j]] 0 <= j < front.len() implies front[j].0.len()
            == 47 && front[j].1.len() == 16 by {
            assert(front[j] == lines[j]);
        }
        assert(front.last() == lines[lines.len() - 2]);
        if k < front.len() {
            assert(front[k] == lines[k]);
            lemma_dump_places(front, k, c);
        } else {
            assert(dump_text(front[0]).len() == 56 + front[0].1.len());
            lemma_dump_places(front, 0, 0);
        }
    }
}

/// The head line of a record in a log is its head with the channel put in behind the
/// time.
pub proof fn law_log_names_the_channel(rec: RecordView)
    ensures
        ({
            let log = entry(rec);
            let number = text::decimal(rec.dlci as nat);
            let n = number.len() as int;
            let size = head_size(rec);
            &&& log.len() >= size
            &&& log.take(12) == rec.head().take(12)
            &&& log.subrange(12, 18) == seq![' ', 'D', 'L', 'C', 'I', ' ']
            &&& log.subrange(18, 18 + n) == number
            &&& log.subrange(18 + n, size - 1) == rec.head().skip(12)
            &&& log[size - 1] == '\n'
        }),
{
    lemma_log_parts(rec);
    reveal_strlit(" DLCI ");
    reveal_strlit(" ");
    reveal_strlit("\n");
    assert(rec.ts.time().len() == 12);
    let log = entry(rec);
    let number = text::decimal(rec.dlci as nat);
    let n = number.len() as int;
    let size = head_size(rec);
    let head = rec.head();
    assert(head.take(12) =~= rec.ts.time());
    assert(head.skip(12) =~= " "@ + rec.summary());
    assert(log.take(12) =~= head.take(12));
    assert(log.subrange(12, 18) =~= seq![' ', 'D', 'L', 'C', 'I', ' ']);
    assert(log.subrange(18, 18 + n) =~= number);
    assert(log.subrange(18 + n, size - 1) =~= head.skip(12));
}

/// The head line and the dump below it.
proof fn lemma_log_parts(rec: RecordView)
    ensures
        entry(rec).len() == head_size(rec) + dump_texts(record::dump(rec.bytes, 16)).len(),
        entry(rec).skip(head_size(rec)) == dump_texts(record::dump(rec.bytes, 16)),
{
    reveal_strlit(" DLCI ");
    reveal_strlit(" ");
    reveal_strlit("\n");
    assert(rec.ts.time().len() == 12);
    let head = rec.ts.time() + " DLCI "@ + text::decimal(rec.dlci as nat) + " "@ + rec.summary()
        + "\n"@;
    assert(head.len() == head_size(rec));
    assert(entry(rec).skip(head_size(rec)) =~= dump_texts(record::dump(rec.bytes, 16)));
}

/// How long a record is in a log: its head line, then 72 characters for each sixteen
/// bytes, the last line shorter by the bytes that it lacks.
pub proof fn law_log_is_as_long_as_it_takes(rec: RecordView)
    ensures
        ({
            let n = rec.bytes.len() as int;
            &&& n == 0 ==> entry(rec).len() == head_size(rec)
            &&& n > 0 ==> entry(rec).len() == head_size(rec) + 72 * ((n + 15) / 16) - (15 - (n - 1)
                % 16)
        }),
{
    lemma_log_parts(rec);
    let lines = record::dump(rec.bytes, 16);
    let n = rec.bytes.len() as int;
    record::law_hexdump_is_aligned_and_complete(rec.bytes, 16);
    if n > 0 {
        let last = lines.len() - 1;
        record::law_all_else_is_blank(rec.bytes, 16, last, 0);
        lemma_line_size(lines[0], 0);
        lemma_dump_places(lines, 0, 0);
    }
}

/// How long a line of a dump is, and where its columns stand.
proof fn lemma_line_size(line: (Seq<char>, Seq<char>), c: int)
    ensures
        dump_text(line).len() == line.0.len() + line.1.len() + 9,
        0 <= c < line.0.len() ==> line.0[c] == dump_text(line)[4 + c],
        0 <= c < line.1.len() ==> line.1[c] == dump_text(line)[line.0.len() + 7 + c],
{
    reveal_strlit("    ");
    reveal_strlit("  |");
    reveal_strlit("|\n");
}

/// Where a character of a line of the dump stands in a log.
proof fn lemma_log_place(rec: RecordView, k: int, c: int)
    requires
        0 <= k < record::dump(rec.bytes, 16).len(),
        0 <= c < dump_text(record::dump(rec.bytes, 16)[k]).len(),
    ensures
        entry(rec)[head_size(rec) + 72 * k + c] == dump_text(record::dump(rec.bytes, 16)[k])[c],
{
    let lines = record::dump(rec.bytes, 16);
    lemma_log_parts(rec);
    record::law_hexdump_is_aligned_and_complete(rec.bytes, 16);
    lemma_dump_places(lines, k, c);
    lemma_line_size(lines[k], 0);
    if k == lines.len() - 1 {
        assert(lines[k] == lines.last());
    }
    assert(entry(rec).skip(head_size(rec))[72 * k + c] == entry(rec)[head_size(rec) + 72 * k + c]);
}

/// Where a byte stands in its line of the dump.
proof fn lemma_line_of_byte(bytes: Seq<u8>, i: int)
    requires
        0 <= i < bytes.len(),
    ensures
        i / 16 < record::dump(bytes, 16).len(),
        ({
            let line = dump_text(record::dump(bytes, 16)[i / 16]);
            let b = bytes[i] as int;
            &&& line.len() > 54 + i % 16
            &&& text::shows_digit(line[4 + 3 * (i % 16)], b / 16)
            &&& text::shows_digit(line[5 + 3 * (i % 16)], b % 16)
            &&& 0x20 <= b <= 0x7E ==> line[54 + i % 16] as int == b
            &&& !(0x20 <= b <= 0x7E) ==> line[54 + i % 16] == '.'
        }),
{
    let k = i / 16;
    let at = i % 16;
    record::law_every_byte_has_its_place(bytes, 16, i);
    record::law_all_else_is_blank(bytes, 16, k, 0);
    let line = record::dump(bytes, 16)[k];
    lemma_line_size(line, 3 * at);
    lemma_line_size(line, 3 * at + 1);
    lemma_line_size(line, at);
}

/// Below its head line a record has its bytes, sixteen to a line. Each stands there
/// twice, in two hexadecimal digits and as a character, a dot where it cannot be printed.
pub proof fn law_log_holds_every_byte(rec: RecordView, i: int)
    requires
        0 <= i < rec.bytes.len(),
    ensures
        ({
            let log = entry(rec);
            let line = head_size(rec) + 72 * (i / 16);
            let b = rec.bytes[i] as int;
            &&& text::shows_digit(log[line + 4 + 3 * (i % 16)], b / 16)
            &&& text::shows_digit(log[line + 5 + 3 * (i % 16)], b % 16)
            &&& 0x20 <= b <= 0x7E ==> log[line + 54 + i % 16] as int == b
            &&& !(0x20 <= b <= 0x7E) ==> log[line + 54 + i % 16] == '.'
        }),
{
    let k = i / 16;
    let at = i % 16;
    lemma_line_of_byte(rec.bytes, i);
    lemma_log_place(rec, k, 4 + 3 * at);
    lemma_log_place(rec, k, 5 + 3 * at);
    lemma_log_place(rec, k, 54 + at);
}

/// Each line of the dump in a log is set in by four blanks, has its second column
/// between bars, two blanks away from the first, and ends there.
pub proof fn law_log_frames_the_columns(rec: RecordView, k: int)
    requires
        0 <= k < (rec.bytes.len() + 15) / 16,
    ensures
        ({
            let log = entry(rec);
            let line = head_size(rec) + 72 * k;
            let held: int = if 16 * (k + 1) <= rec.bytes.len() {
                16
            } else {
                rec.bytes.len() - 16 * k
            };
            &&& log[line + 0] == ' ' && log[line + 1] == ' ' && log[line + 2] == ' ' && log[line
                + 3] == ' '
            &&& log[line + 51] == ' ' && log[line + 52] == ' ' && log[line + 53] == '|'
            &&& log[line + (54 + held)] == '|' && log[line + (55 + held)] == '\n'
        }),
{
    record::law_hexdump_is_aligned_and_complete(rec.bytes, 16);
    record::law_all_else_is_blank(rec.bytes, 16, k, 0);
    let held = record::dump(rec.bytes, 16)[k].1.len() as int;
    lemma_frame_of_line(record::dump(rec.bytes, 16)[k]);
    lemma_log_place(rec, k, 0);
    lemma_log_place(rec, k, 1);
    lemma_log_place(rec, k, 2);
    lemma_log_place(rec, k, 3);
    lemma_log_place(rec, k, 51);
    lemma_log_place(rec, k, 52);
    lemma_log_place(rec, k, 53);
    lemma_log_place(rec, k, 54 + held);
    lemma_log_place(rec, k, 55 + held);
}

/// What stands around the columns of a line.
proof fn lemma_frame_of_line(line: (Seq<char>, Seq<char>))
    requires
        line.0.len() == 47,
    ensures
        ({
            let t = dump_text(line);
            let n = line.1.len() as int;
            &&& t.len() == 56 + n
            &&& t[0] == ' ' && t[1] == ' ' && t[2] == ' ' && t[3] == ' '
            &&& t[51] == ' ' && t[52] == ' ' && t[53] == '|'
            &&& t[54 + n] == '|' && t[55 + n] == '\n'
        }),
{
    reveal_strlit("    ");
    reveal_strlit("  |");
    reveal_strlit("|\n");
}

/// The line that opens a session in a log holds its date and time between marks, and is
/// one line.
pub proof fn law_log_opens_with_the_date(ts: Timestamp)
    ensures
        ({
            let date = clock::strftime(ts.secs(), ts.nanos(), "%Y-%m-%d %H:%M:%S"@);
            let line = opening(ts);
            let n = "==== cmux-tui 会话日志 "@.len() as int;
            &&& line.len() == n + date.len() + 6
            &&& line.take(n) == "==== cmux-tui 会话日志 "@
            &&& line.subrange(n, n + date.len()) == date
            &&& line.skip(n + date.len()) == seq![' ', '=', '=', '=', '=', '\n']
        }),
{
    reveal_strlit(" ====\n");
    let date = clock::strftime(ts.secs(), ts.nanos(), "%Y-%m-%d %H:%M:%S"@);
    let line = opening(ts);
    let n = "==== cmux-tui 会话日志 "@.len() as int;
    assert(line.take(n) =~= "==== cmux-tui 会话日志 "@);
    assert(line.subrange(n, n + date.len()) =~= date);
    assert(line.skip(n + date.len()) =~= seq![' ', '=', '=', '=', '=', '\n']);
}

} // verus!
