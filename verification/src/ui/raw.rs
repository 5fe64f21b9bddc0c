//! The raw view: every frame on the line, and what it was taken for.
use crate::app::record::hexdump_lines;
#[allow(unused_imports)]
use crate::app::record;
#[allow(unused_imports)]
use crate::app::state;
use crate::app::state::{AppState, AppView, RawEntry, RawView};
#[allow(unused_imports)]
use crate::ui::hexview;
use crate::ui::hexview::{line_bytes, line_count, WIDE_THRESHOLD};
use crate::ui::widget::{
    bordered_inner, last_lines, push_draw, push_line, Block, BlockView, Blocks, Color, Draw,
    DrawView, Line, Rect, Span, SpanView, Style,
};
#[allow(unused_imports)]
use crate::ui::widget;
use vstd::prelude::*;

verus! {

/// The colour of an entry.
pub open spec fn entry_color(e: RawView) -> Color {
    if !e.ok {
        Color::Red
    } else if e.outgoing {
        Color::Cyan
    } else {
        Color::Green
    }
}

/// A line of bytes.
pub open spec fn bytes_line(line: (Seq<char>, Seq<char>)) -> Seq<SpanView> {
    seq![
        SpanView::plain("  "@),
        SpanView::colored(line.0, Color::Gray),
        SpanView::plain("  "@),
        SpanView::colored(line.1, Color::DarkGray),
    ]
}

/// The lines of one entry.
pub open spec fn lines_of_entry(e: RawView, per_line: nat) -> Seq<Seq<SpanView>> {
    seq![seq![SpanView::colored(e.line(), entry_color(e))]] + record::dump(
        e.bytes,
        per_line,
    ).map_values(|l: (Seq<char>, Seq<char>)| bytes_line(l))
}

/// The lines of entries, one behind the other.
pub open spec fn lines_of(entries: Seq<RawView>, per_line: nat) -> Seq<Seq<SpanView>> {
    widget::stacked(entries.map_values(|e: RawView| lines_of_entry(e, per_line)))
}

/// The raw view: the last lines that fit, over whatever was there.
pub open spec fn overlay(area: Rect, s: AppView) -> Seq<DrawView> {
    let inner = area.inside();
    seq![
        DrawView::Clear(area),
        DrawView::Paragraph {
            area,
            lines: state::latest(
                lines_of(s.raw_log, hexview::bytes_per_line(inner.width)),
                hexview::lines_wanted(inner.height),
            ),
            block: Some(
                BlockView {
                    title: seq![SpanView::plain(" 原始帧 — Ctrl+R 返回 "@)],
                    border: Style::of_color(Color::Magenta),
                },
            ),
            style: Style::as_is(),
        },
    ]
}

/// The lines of one entry.
fn entry_lines(e: &RawEntry, per_line: usize) -> (out: Vec<Line>)
    requires
        1 <= per_line <= 16,
    ensures
        widget::line_views(out@) == lines_of_entry(e@, per_line as nat),
{
    let color = if !e.ok {
        Color::Red
    } else if e.outgoing {
        Color::Cyan
    } else {
        Color::Green
    };
    let mut out: Vec<Line> = Vec::new();
    let line = e.line();
    push_line(&mut out, Line::of(Span::colored(line.as_str(), color)));
    let dump = hexdump_lines(e.bytes.as_slice(), per_line);
    let ghost views = record::pair_views(dump@);
    let ghost head = widget::line_views(out@);
    for i in 0..dump.len()
        invariant
            views == record::pair_views(dump@),
            widget::line_views(out@) == head + views.take(i as int).map_values(
                |l: (Seq<char>, Seq<char>)| bytes_line(l),
            ),
    {
        let line = Line::of(Span::raw("  ")).with(
            Span::colored(dump[i].0.as_str(), Color::Gray),
        ).with(Span::raw("  ")).with(Span::colored(dump[i].1.as_str(), Color::DarkGray));
        assert(line@ =~= bytes_line(views[i as int]));
        push_line(&mut out, line);
        assert(widget::line_views(out@) =~= head + views.take(i + 1).map_values(
            |l: (Seq<char>, Seq<char>)| bytes_line(l),
        ));
    }
    assert(views.take(views.len() as int) =~= views);
    assert(widget::line_views(out@) =~= lines_of_entry(e@, per_line as nat));
    out
}

/// The entries of the raw view.
struct RawEntries<'a> {
    state: &'a AppState,
    wide: bool,
}

impl<'a> Blocks for RawEntries<'a> {
    closed spec fn blocks(&self) -> Seq<Seq<Seq<SpanView>>> {
        let per_line = hexview::line_size(self.wide);
        self.state@.raw_log.map_values(|e: RawView| lines_of_entry(e, per_line))
    }

    fn count(&self) -> (n: usize) {
        self.state.raw_log.len()
    }

    fn block(&self, i: usize) -> (lines: Vec<Line>) {
        assert(self.state@.raw_log[i as int] == self.state.raw_log@[i as int]@);
        entry_lines(&self.state.raw_log[i], line_bytes(self.wide))
    }
}

/// Draws the raw view over a place.
pub fn render_raw(area: Rect, state: &AppState) -> (drawing: Vec<Draw>)
    ensures
        widget::draw_views(drawing@) == overlay(area, state@),
{
    let inner = bordered_inner(area);
    let source = RawEntries { state, wide: inner.width >= WIDE_THRESHOLD };
    let lines = last_lines(&source, line_count(inner.height));
    let block = Block {
        title: Line::of(Span::raw(" 原始帧 — Ctrl+R 返回 ")),
        border: Style::colored(Color::Magenta),
    };
    let mut drawing: Vec<Draw> = Vec::new();
    push_draw(&mut drawing, Draw::Clear(area));
    push_draw(
        &mut drawing,
        Draw::Paragraph { area, lines, block: Some(block), style: Style::plain() },
    );
    assert(widget::draw_views(drawing@) =~= overlay(area, state@));
    drawing
}

/// What an entry is in the raw view: its line, in red where it is no good frame, else in
/// the colour of its direction, and below it its bytes, set in, so many to a line.
pub proof fn law_lines_of_an_entry(e: RawView, n: nat, k: int)
    requires
        n >= 1,
    ensures
        ({
            let lines = lines_of_entry(e, n);
            let dump = record::dump(e.bytes, n);
            &&& lines.len() == 1 + (e.bytes.len() + n - 1) / (n as int)
            &&& lines[0].len() == 1 && lines[0][0].text == e.line()
            &&& lines[0][0].style.fg == Some(
                if !e.ok {
                    Color::Red
                } else if e.outgoing {
                    Color::Cyan
                } else {
                    Color::Green
                },
            )
            &&& 0 <= k < lines.len() - 1 ==> {
                let line = lines[k + 1];
                &&& line.len() == 4
                &&& line[0].text == seq![' ', ' '] && line[2].text == seq![' ', ' ']
                &&& line[1].text == dump[k].0 && line[1].style.fg == Some(Color::Gray)
                &&& line[3].text == dump[k].1 && line[3].style.fg == Some(Color::DarkGray)
            }
        }),
{
    record::law_hexdump_is_aligned_and_complete(e.bytes, n);
    reveal_strlit("  ");
    assert("  "@ =~= seq![' ', ' ']);
}

/// The lines of entries stand in the order of the entries, with nothing between.
pub proof fn law_entries_stand_in_order(a: Seq<RawView>, b: Seq<RawView>, n: nat)
    ensures
        lines_of(a + b, n) == lines_of(a, n) + lines_of(b, n),
        a.len() == 0 ==> lines_of(a, n).len() == 0,
        a.len() == 1 ==> lines_of(a, n) == lines_of_entry(a[0], n),
{
    let show = |e: RawView| lines_of_entry(e, n);
    assert((a + b).map_values(show) =~= a.map_values(show) + b.map_values(show));
    widget::law_blocks_stand_in_order(a.map_values(show), b.map_values(show));
}

/// What the raw view shows: it wipes its place and puts the last lines of all its entries
/// there, as many as there is room for, sixteen bytes to a line from an inner width of 66
/// on and eight below that.
pub proof fn law_what_the_raw_view_shows(area: Rect, s: AppView, k: int)
    ensures
        ({
            let inner = area.inside();
            let n: nat = if inner.width >= 66 {
                16
            } else {
                8
            };
            let all = lines_of(s.raw_log, n);
            let room: int = if inner.height == 0 {
                1
            } else {
                inner.height as int
            };
            &&& overlay(area, s).len() == 2
            &&& overlay(area, s)[0] == DrawView::Clear(area)
            &&& overlay(area, s)[1] matches DrawView::Paragraph { area: at, lines, block, .. } && {
                &&& at == area
                &&& lines.len() == (if all.len() <= room {
                    all.len() as int
                } else {
                    room
                })
                &&& 0 <= k < lines.len() ==> lines[k] == all[all.len() - lines.len() + k]
                &&& block matches Some(b) && b.title.len() == 1 && b.title[0].text
                    == " 原始帧 — Ctrl+R 返回 "@
            }
        }),
{
}

} // verus!
