//! The panel of one channel: for each record a head line, then its bytes in
//! hexadecimal and as characters.
use crate::app::record::{hexdump_lines, Direction, Record, RecordView};
#[allow(unused_imports)]
use crate::app::record;
#[allow(unused_imports)]
use crate::app::state;
use crate::app::state::{ChannelSlot, SlotView};
use crate::mux::session::DlcState;
#[allow(unused_imports)]
use crate::text;
use crate::text::{push_decimal, push_text};
use crate::ui::widget::{
    bordered_inner, last_lines, push_line, Block, BlockView, Blocks, Color, Draw, DrawView, Line,
    Rect, Span, SpanView, Style,
};
#[allow(unused_imports)]
use crate::ui::widget;
use vstd::prelude::*;

verus! {

/// From this inner width on a line shows sixteen bytes, else eight.
pub const WIDE_THRESHOLD: u16 = 66;

/// The word for a state of a channel.
pub open spec fn state_word(s: DlcState) -> Seq<char> {
    match s {
        DlcState::Open => "UP"@,
        DlcState::Opening { .. } => "建链中"@,
        DlcState::Closing { .. } => "关闭中"@,
        DlcState::Failed => "FAILED"@,
        DlcState::Closed => "DOWN"@,
    }
}

/// The colour of a state of a channel.
pub open spec fn state_color(s: DlcState) -> Color {
    match s {
        DlcState::Open => Color::Green,
        DlcState::Opening { .. } => Color::Yellow,
        DlcState::Closing { .. } => Color::Yellow,
        DlcState::Failed => Color::Red,
        DlcState::Closed => Color::DarkGray,
    }
}

/// The colour of a direction.
pub open spec fn dir_color(dir: Direction) -> Color {
    match dir {
        Direction::Tx => Color::Cyan,
        Direction::Rx => Color::Green,
        Direction::Info => Color::DarkGray,
        Direction::Error => Color::Red,
    }
}

/// A line of bytes.
pub open spec fn bytes_line(line: (Seq<char>, Seq<char>)) -> Seq<SpanView> {
    seq![
        SpanView::colored(line.0, Color::Gray),
        SpanView::plain("  "@),
        SpanView::colored(line.1, Color::White),
    ]
}

/// The lines of one record.
pub open spec fn lines_of_record(rec: RecordView, per_line: nat) -> Seq<Seq<SpanView>> {
    seq![seq![SpanView::colored(rec.head(), dir_color(rec.dir))]] + record::dump(
        rec.bytes,
        per_line,
    ).map_values(|l: (Seq<char>, Seq<char>)| bytes_line(l))
}

/// The lines of records, one behind the other.
pub open spec fn lines_of(records: Seq<RecordView>, per_line: nat) -> Seq<Seq<SpanView>> {
    widget::stacked(records.map_values(|r: RecordView| lines_of_record(r, per_line)))
}

/// How many bytes a line shows, wide or narrow.
pub open spec fn line_size(wide: bool) -> nat {
    if wide {
        16
    } else {
        8
    }
}

/// How many bytes a line shows at an inner width.
pub open spec fn bytes_per_line(width: u16) -> nat {
    line_size(width >= WIDE_THRESHOLD)
}

/// How many lines are gathered for a height: as many as there is room for, and
/// one where there is none.
pub open spec fn lines_wanted(height: u16) -> nat {
    if height == 0 {
        1
    } else {
        height as nat
    }
}

/// The records down to where the view is scrolled to.
pub open spec fn records_shown(slot: SlotView) -> Seq<RecordView> {
    if slot.scroll >= slot.records.len() {
        Seq::empty()
    } else {
        slot.records.take(slot.records.len() - slot.scroll)
    }
}

/// The lines within a panel: the last that fit of the records down to where the
/// view is scrolled to, or a hint in a slot that is free.
pub open spec fn panel_lines(slot: SlotView, inner: Rect) -> Seq<Seq<SpanView>> {
    if slot.dlci is None {
        seq![
            Seq::empty(),
            seq![SpanView::colored("  按 Ctrl+O 绑定一个 DLCI"@, Color::DarkGray)],
        ]
    } else {
        state::latest(
            lines_of(records_shown(slot), bytes_per_line(inner.width)),
            lines_wanted(inner.height),
        )
    }
}

/// The title of a panel: its key, its channel and how that stands, and a mark on
/// the one in focus.
pub open spec fn panel_title(slot: SlotView, index: nat, focused: bool) -> Seq<SpanView> {
    match slot.dlci {
        Some(dlci) => {
            let head = seq![
                SpanView::plain(
                    "[F"@ + text::decimal(index + 1) + "] DLCI "@ + text::decimal(dlci as nat)
                        + " "@,
                ),
                SpanView::colored(state_word(slot.state), state_color(slot.state)),
            ];
            if focused {
                head.push(SpanView::colored(" ◀"@, Color::Yellow))
            } else {
                head
            }
        },
        None => seq![SpanView::plain("[F"@ + text::decimal(index + 1) + "] 空槽位"@)],
    }
}

/// The border of a panel.
pub open spec fn panel_border(focused: bool) -> Style {
    if focused {
        Style { fg: Some(Color::Yellow), bg: None, bold: true }
    } else {
        Style::of_color(Color::DarkGray)
    }
}

/// The panel of a channel.
pub open spec fn panel(area: Rect, slot: SlotView, index: nat, focused: bool) -> DrawView {
    DrawView::Paragraph {
        area,
        lines: panel_lines(slot, area.inside()),
        block: Some(
            BlockView {
                title: panel_title(slot, index, focused),
                border: panel_border(focused),
            },
        ),
        style: Style::as_is(),
    }
}

/// How many bytes a line shows, wide or narrow.
pub fn line_bytes(wide: bool) -> (n: usize)
    ensures
        n == line_size(wide),
{
    if wide {
        16
    } else {
        8
    }
}

/// How many lines are gathered for a height.
pub fn line_count(height: u16) -> (n: usize)
    ensures
        n == lines_wanted(height),
{
    if height == 0 {
        1
    } else {
        height as usize
    }
}

/// The word and the colour for a state of a channel.
fn state_label(s: &DlcState) -> (r: (&'static str, Color))
    ensures
        r.0@ == state_word(*s),
        r.1 == state_color(*s),
{
    match s {
        DlcState::Open => ("UP", Color::Green),
        DlcState::Opening { .. } => ("建链中", Color::Yellow),
        DlcState::Closing { .. } => ("关闭中", Color::Yellow),
        DlcState::Failed => ("FAILED", Color::Red),
        DlcState::Closed => ("DOWN", Color::DarkGray),
    }
}

/// The style of a direction.
fn dir_style(dir: Direction) -> (s: Style)
    ensures
        s == Style::of_color(dir_color(dir)),
{
    Style::colored(
        match dir {
            Direction::Tx => Color::Cyan,
            Direction::Rx => Color::Green,
            Direction::Info => Color::DarkGray,
            Direction::Error => Color::Red,
        },
    )
}

/// The lines of one record.
fn record_lines(rec: &Record, per_line: usize) -> (out: Vec<Line>)
    requires
        1 <= per_line <= 16,
    ensures
        widget::line_views(out@) == lines_of_record(rec@, per_line as nat),
{
    let mut out: Vec<Line> = Vec::new();
    let header = rec.header();
    push_line(&mut out, Line::of(Span::styled(header.as_str(), dir_style(rec.dir))));
    let dump = hexdump_lines(rec.bytes.as_slice(), per_line);
    let ghost views = record::pair_views(dump@);
    let ghost head = widget::line_views(out@);
    for i in 0..dump.len()
        invariant
            views == record::pair_views(dump@),
            widget::line_views(out@) == head + views.take(i as int).map_values(
                |l: (Seq<char>, Seq<char>)| bytes_line(l),
            ),
    {
        let line = Line::empty().with(Span::colored(dump[i].0.as_str(), Color::Gray)).with(
            Span::raw("  "),
        ).with(Span::colored(dump[i].1.as_str(), Color::White));
        assert(line@ =~= bytes_line(views[i as int]));
        push_line(&mut out, line);
        assert(widget::line_views(out@) =~= head + views.take(i + 1).map_values(
            |l: (Seq<char>, Seq<char>)| bytes_line(l),
        ));
    }
    assert(views.take(views.len() as int) =~= views);
    assert(widget::line_views(out@) =~= lines_of_record(rec@, per_line as nat));
    out
}

/// The records of a slot down to where the view is scrolled to.
struct ShownRecords<'a> {
    slot: &'a ChannelSlot,
    wide: bool,
}

impl<'a> Blocks for ShownRecords<'a> {
    closed spec fn blocks(&self) -> Seq<Seq<Seq<SpanView>>> {
        let per_line = line_size(self.wide);
        records_shown(self.slot@).map_values(|r: RecordView| lines_of_record(r, per_line))
    }

    fn count(&self) -> (n: usize) {
        let len: usize = self.slot.records.len();
        if self.slot.scroll < len {
            len - self.slot.scroll
        } else {
            0
        }
    }

    fn block(&self, i: usize) -> (lines: Vec<Line>) {
        assert(self.slot@.records[i as int] == self.slot.records@[i as int]@);
        record_lines(&self.slot.records[i], line_bytes(self.wide))
    }
}

/// Draws the panel of a channel. `index` is for the key in the title.
pub fn render_channel(area: Rect, slot: &ChannelSlot, index: usize, focused: bool) -> (d: Draw)
    requires
        index < usize::MAX,
    ensures
        d@ == panel(area, slot@, index as nat, focused),
{
    let mut name = String::new();
    push_text(&mut name, "[F");
    push_decimal(&mut name, index as u64 + 1);
    let title = match slot.dlci {
        Some(dlci) => {
            let (label, color) = state_label(&slot.state);
            push_text(&mut name, "] DLCI ");
            push_decimal(&mut name, dlci as u64);
            push_text(&mut name, " ");
            assert(name@ =~= "[F"@ + text::decimal(index as nat + 1) + "] DLCI "@ + text::decimal(
                dlci as nat,
            ) + " "@);
            let head = Line::of(Span::raw(name.as_str())).with(Span::colored(label, color));
            if focused {
                head.with(Span::colored(" ◀", Color::Yellow))
            } else {
                head
            }
        },
        None => {
            push_text(&mut name, "] 空槽位");
            assert(name@ =~= "[F"@ + text::decimal(index as nat + 1) + "] 空槽位"@);
            Line::of(Span::raw(name.as_str()))
        },
    };
    assert(title@ =~= panel_title(slot@, index as nat, focused));
    let border = if focused {
        Style { fg: Some(Color::Yellow), bg: None, bold: true }
    } else {
        Style::colored(Color::DarkGray)
    };
    let inner = bordered_inner(area);
    let lines: Vec<Line> = if slot.dlci.is_none() {
        let mut lines: Vec<Line> = Vec::new();
        push_line(&mut lines, Line::empty());
        push_line(
            &mut lines,
            Line::of(Span::colored("  按 Ctrl+O 绑定一个 DLCI", Color::DarkGray)),
        );
        assert(widget::line_views(lines@) =~= panel_lines(slot@, inner));
        lines
    } else {
        let source = ShownRecords { slot, wide: inner.width >= WIDE_THRESHOLD };
        last_lines(&source, line_count(inner.height))
    };
    Draw::Paragraph { area, lines, block: Some(Block { title, border }), style: Style::plain() }
}

/// A view that follows ends with the last line of the latest record, and no panel
/// has more lines than were wanted.
pub proof fn law_following_shows_the_latest(slot: SlotView, inner: Rect)
    requires
        slot.dlci is Some,
        slot.scroll == 0,
        slot.records.len() > 0,
    ensures
        0 < panel_lines(slot, inner).len() <= lines_wanted(inner.height),
        panel_lines(slot, inner).last() == lines_of_record(
            slot.records.last(),
            bytes_per_line(inner.width),
        ).last(),
{
    let per_line = bytes_per_line(inner.width);
    let earlier = slot.records.drop_last();
    let latest = seq![slot.records.last()];
    let show = |r: RecordView| lines_of_record(r, per_line);
    assert(records_shown(slot) =~= earlier + latest);
    assert((earlier + latest).map_values(show) =~= earlier.map_values(show) + latest.map_values(
        show,
    ));
    widget::lemma_stacked_both(earlier.map_values(show), latest.map_values(show));
    reveal_with_fuel(widget::stacked, 2);
    assert(latest.map_values(show).drop_first() =~= Seq::empty());
    assert(lines_of(latest, per_line) =~= lines_of_record(latest[0], per_line));
}

/// What a record is on a panel: its head in the colour of where it comes from, and below
/// it its bytes, so many to a line, the hexadecimal digits in grey, two blanks, and the
/// characters in white.
pub proof fn law_lines_of_a_record(rec: RecordView, n: nat, k: int)
    requires
        n >= 1,
    ensures
        ({
            let lines = lines_of_record(rec, n);
            let dump = record::dump(rec.bytes, n);
            &&& lines.len() == 1 + (rec.bytes.len() + n - 1) / (n as int)
            &&& lines[0].len() == 1 && lines[0][0].text == rec.head()
            &&& lines[0][0].style.fg == Some(
                match rec.dir {
                    Direction::Tx => Color::Cyan,
                    Direction::Rx => Color::Green,
                    Direction::Info => Color::DarkGray,
                    Direction::Error => Color::Red,
                },
            )
            &&& 0 <= k < lines.len() - 1 ==> {
                let line = lines[k + 1];
                &&& line.len() == 3
                &&& line[0].text == dump[k].0 && line[0].style.fg == Some(Color::Gray)
                &&& line[1].text == seq![' ', ' ']
                &&& line[2].text == dump[k].1 && line[2].style.fg == Some(Color::White)
            }
        }),
{
    record::law_hexdump_is_aligned_and_complete(rec.bytes, n);
    reveal_strlit("  ");
    assert("  "@ =~= seq![' ', ' ']);
}

/// What a panel shows: the records down to where it is scrolled to, all of them in order
/// and each whole, and of their lines the last that there is room for. A line shows sixteen
/// bytes from an inner width of 66 on, and eight below that.
pub proof fn law_what_a_panel_shows(slot: SlotView, inner: Rect, k: int)
    requires
        slot.dlci is Some,
    ensures
        ({
            let n: nat = if inner.width >= 66 {
                16
            } else {
                8
            };
            let shown = records_shown(slot);
            let all = lines_of(shown, n);
            let lines = panel_lines(slot, inner);
            let room: int = if inner.height == 0 {
                1
            } else {
                inner.height as int
            };
            &&& shown.len() == (if slot.scroll <= slot.records.len() {
                slot.records.len() - slot.scroll
            } else {
                0
            })
            &&& 0 <= k < shown.len() ==> shown[k] == slot.records[k]
            &&& lines.len() == (if all.len() <= room {
                all.len() as int
            } else {
                room
            })
            &&& 0 <= k < lines.len() ==> lines[k] == all[all.len() - lines.len() + k]
        }),
{
}

/// The lines of records stand in the order of the records, with nothing between.
pub proof fn law_records_stand_in_order(a: Seq<RecordView>, b: Seq<RecordView>, n: nat)
    ensures
        lines_of(a + b, n) == lines_of(a, n) + lines_of(b, n),
        a.len() == 0 ==> lines_of(a, n).len() == 0,
        a.len() == 1 ==> lines_of(a, n) == lines_of_record(a[0], n),
{
    let show = |r: RecordView| lines_of_record(r, n);
    assert((a + b).map_values(show) =~= a.map_values(show) + b.map_values(show));
    widget::law_blocks_stand_in_order(a.map_values(show), b.map_values(show));
}

/// What the title of a panel says: its key, then that it is free, or its channel, how that
/// stands, in words and in colour, and a mark where it is in focus. A free panel says how
/// to bind a channel. The border stands out where the panel is in focus.
pub proof fn law_what_a_title_says(slot: SlotView, index: nat, focused: bool)
    ensures
        ({
            let title = panel_title(slot, index, focused);
            let key = text::decimal(index + 1);
            match slot.dlci {
                None => title.len() == 1 && title[0].text == "[F"@ + key + "] 空槽位"@,
                Some(dlci) => {
                    &&& title.len() == (if focused {
                        3int
                    } else {
                        2
                    })
                    &&& title[0].text == "[F"@ + key + "] DLCI "@ + text::decimal(dlci as nat)
                        + " "@
                    &&& title[1].text == (match slot.state {
                        DlcState::Open => "UP"@,
                        DlcState::Opening { .. } => "建链中"@,
                        DlcState::Closing { .. } => "关闭中"@,
                        DlcState::Failed => "FAILED"@,
                        DlcState::Closed => "DOWN"@,
                    })
                    &&& title[1].style.fg == Some(
                        match slot.state {
                            DlcState::Open => Color::Green,
                            DlcState::Failed => Color::Red,
                            DlcState::Closed => Color::DarkGray,
                            _ => Color::Yellow,
                        },
                    )
                    &&& focused ==> title[2].text == " ◀"@
                },
            }
        }),
        panel_border(focused).fg == Some(
            if focused {
                Color::Yellow
            } else {
                Color::DarkGray
            },
        ),
        panel_border(focused).bold == focused,
        slot.dlci is None ==> forall|inner: Rect| #[trigger]
            panel_lines(slot, inner).len() == 2 && panel_lines(slot, inner)[0].len() == 0
                && panel_lines(slot, inner)[1].len() == 1 && panel_lines(slot, inner)[1][0].text
                == "  按 Ctrl+O 绑定一个 DLCI"@,
{
}

/// A panel is drawn at its place, with its title, its border, and its lines for what is
/// within the border.
pub proof fn law_panel_is_drawn_at_its_place(area: Rect, slot: SlotView, index: nat, focused: bool)
    ensures
        panel(area, slot, index, focused) matches DrawView::Paragraph {
            area: at,
            lines,
            block,
            style,
        } && {
            &&& at == area
            &&& lines == panel_lines(slot, area.inside())
            &&& block matches Some(b) && b.title == panel_title(slot, index, focused) && b.border
                == panel_border(focused)
        },
{
}

} // verus!
