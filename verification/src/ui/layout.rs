//! The whole screen: a status line, two panels side by side, the input line, and
//! what lies over them.
#[allow(unused_imports)]
use crate::app::input::InputMode;
use crate::app::state::{AppState, AppView, DialogView, LinkState};
#[allow(unused_imports)]
use crate::text;
use crate::text::{push_decimal, push_text};
#[allow(unused_imports)]
use crate::ui::dialog;
use crate::ui::dialog::render_dialog;
#[allow(unused_imports)]
use crate::ui::hexview;
use crate::ui::hexview::render_channel;
#[allow(unused_imports)]
use crate::ui::raw;
use crate::ui::raw::render_raw;
use crate::ui::widget::{
    append_draws, push_draw, push_line, split, Axis, Block, BlockView, Color, Draw, DrawView, Line,
    Rect, Share, Span, SpanView, Style,
};
#[allow(unused_imports)]
use crate::ui::widget;
use vstd::prelude::*;

verus! {

/// How the line stands.
pub open spec fn link_mark(link: LinkState) -> SpanView {
    match link {
        LinkState::Up => SpanView::colored("● MUX UP"@, Color::Green),
        LinkState::Negotiating => SpanView::colored("● 握手中"@, Color::Yellow),
        LinkState::Down => SpanView::colored("● MUX DOWN"@, Color::Red),
    }
}

/// The status line: the port, how the line stands, and the counters.
pub open spec fn status(s: AppView) -> Seq<SpanView> {
    seq![
        SpanView::plain(" "@ + s.port_desc + " "@),
        SpanView::plain("│ "@),
        link_mark(s.link),
        SpanView::plain(
            " │ rx "@ + text::decimal(s.stats.rx_frames) + " tx "@ + text::decimal(
                s.stats.tx_frames,
            ) + " │ fcs_err "@ + text::decimal(s.stats.fcs_errors) + " "@,
        ),
    ]
}

/// Where the input goes.
pub open spec fn target_text(s: AppView) -> Seq<char> {
    match s.target() {
        Some(dlci) => "→ DLCI "@ + text::decimal(dlci as nat),
        None => "→ 无通道"@,
    }
}

/// The input line: its mode, its text, where it goes, and a message if there is
/// one.
pub open spec fn prompt(s: AppView) -> Seq<SpanView> {
    let line = seq![
        SpanView {
            text: " "@ + s.input.mode.text() + " "@,
            style: Style { fg: Some(Color::Black), bg: Some(Color::Cyan), bold: false },
        },
        SpanView::plain(" "@),
        SpanView::plain(s.input.buffer),
        SpanView::colored("▌"@, Color::Yellow),
        SpanView::plain("  "@),
        SpanView::colored(target_text(s), Color::DarkGray),
    ];
    match s.notice {
        Some(notice) => line + seq![
            SpanView::plain("  "@),
            SpanView::colored(notice, Color::Red),
        ],
        None => line,
    }
}

/// The first `n` panels, as far as there are places for them.
pub open spec fn panels(cols: Seq<Rect>, s: AppView, n: nat) -> Seq<DrawView>
    decreases n,
{
    if n == 0 {
        Seq::empty()
    } else {
        let i = n - 1;
        let before = panels(cols, s, i as nat);
        if i < cols.len() {
            before.push(hexview::panel(cols[i], s.slots[i], i as nat, s.focus == i))
        } else {
            before
        }
    }
}

/// What lies over the screen: the raw view, and a dialog over that.
pub open spec fn overlays(area: Rect, s: AppView) -> Seq<DrawView> {
    (if s.show_raw {
        raw::overlay(area, s)
    } else {
        Seq::empty()
    }) + (match s.dialog {
        Some(d) => dialog::overlay(area, d),
        None => Seq::empty(),
    })
}

/// The whole screen, with the places of its parts given: three rows, and a column
/// of the middle one for each panel.
pub open spec fn screen(area: Rect, rows: Seq<Rect>, cols: Seq<Rect>, s: AppView) -> Seq<
    DrawView,
> {
    seq![
        DrawView::Paragraph {
            area: rows[0],
            lines: seq![status(s)],
            block: None,
            style: Style { fg: None, bg: Some(Color::Rgb(28, 28, 34)), bold: false },
        },
    ] + panels(cols, s, s.slots.len()) + seq![
        DrawView::Paragraph {
            area: rows[2],
            lines: seq![prompt(s)],
            block: Some(BlockView { title: Seq::empty(), border: Style::as_is() }),
            style: Style::as_is(),
        },
    ] + overlays(area, s)
}

/// How the line stands.
fn link_span(link: LinkState) -> (s: Span)
    ensures
        s@ == link_mark(link),
{
    match link {
        LinkState::Up => Span::colored("● MUX UP", Color::Green),
        LinkState::Negotiating => Span::colored("● 握手中", Color::Yellow),
        LinkState::Down => Span::colored("● MUX DOWN", Color::Red),
    }
}

/// The status line.
fn status_line(state: &AppState) -> (l: Line)
    ensures
        l@ == status(state@),
{
    let mut port = String::new();
    push_text(&mut port, " ");
    push_text(&mut port, state.port_desc.as_str());
    push_text(&mut port, " ");
    assert(port@ =~= " "@ + state.port_desc@ + " "@);
    let mut counts = String::new();
    push_text(&mut counts, " │ rx ");
    push_decimal(&mut counts, state.stats.rx_frames);
    push_text(&mut counts, " tx ");
    push_decimal(&mut counts, state.stats.tx_frames);
    push_text(&mut counts, " │ fcs_err ");
    push_decimal(&mut counts, state.stats.fcs_errors);
    push_text(&mut counts, " ");
    assert(counts@ =~= " │ rx "@ + text::decimal(state@.stats.rx_frames) + " tx "@
        + text::decimal(state@.stats.tx_frames) + " │ fcs_err "@ + text::decimal(
        state@.stats.fcs_errors,
    ) + " "@);
    let l = Line::of(Span::raw(port.as_str())).with(Span::raw("│ ")).with(
        link_span(state.link),
    ).with(Span::raw(counts.as_str()));
    assert(l@ =~= status(state@));
    l
}

/// The input line.
fn input_line(state: &AppState) -> (l: Line)
    requires
        state@.in_focus(),
    ensures
        l@ == prompt(state@),
{
    let mut target = String::new();
    match state.target_dlci() {
        Some(dlci) => {
            push_text(&mut target, "→ DLCI ");
            push_decimal(&mut target, dlci as u64);
        },
        None => {
            push_text(&mut target, "→ 无通道");
        },
    }
    assert(target@ =~= target_text(state@));
    let mut mode = String::new();
    push_text(&mut mode, " ");
    push_text(&mut mode, state.input.mode.label());
    push_text(&mut mode, " ");
    assert(mode@ =~= " "@ + state@.input.mode.text() + " "@);
    let line = Line::of(
        Span::styled(
            mode.as_str(),
            Style { fg: Some(Color::Black), bg: Some(Color::Cyan), bold: false },
        ),
    ).with(Span::raw(" ")).with(Span::raw(state.input.buffer.as_str())).with(
        Span::colored("▌", Color::Yellow),
    ).with(Span::raw("  ")).with(Span::colored(target.as_str(), Color::DarkGray));
    let l = match &state.notice {
        Some(notice) => line.with(Span::raw("  ")).with(
            Span::colored(notice.as_str(), Color::Red),
        ),
        None => line,
    };
    assert(l@ =~= prompt(state@));
    l
}

/// A list of one line.
fn lone(line: Line) -> (lines: Vec<Line>)
    ensures
        widget::line_views(lines@) == seq![line@],
{
    let mut lines: Vec<Line> = Vec::new();
    push_line(&mut lines, line);
    assert(widget::line_views(lines@) =~= seq![line@]);
    lines
}

/// Draws the whole screen, with the places of its parts given.
pub fn draw_in(area: Rect, rows: &Vec<Rect>, cols: &Vec<Rect>, state: &AppState) -> (drawing: Vec<
    Draw,
>)
    requires
        rows@.len() >= 3,
        state@.in_focus(),
        state@.dialog is Some ==> area.wf(),
        state@.dialog matches Some(DialogView::Bind { slot, .. }) ==> slot < usize::MAX,
    ensures
        widget::draw_views(drawing@) == screen(area, rows@, cols@, state@),
{
    let mut drawing: Vec<Draw> = Vec::new();
    push_draw(
        &mut drawing,
        Draw::Paragraph {
            area: rows[0],
            lines: lone(status_line(state)),
            block: None,
            style: Style { fg: None, bg: Some(Color::Rgb(28, 28, 34)), bold: false },
        },
    );
    let ghost head = widget::draw_views(drawing@);
    for i in 0..state.slots.len()
        invariant
            widget::draw_views(drawing@) == head + panels(cols@, state@, i as nat),
    {
        if i < cols.len() {
            let d = render_channel(cols[i], &state.slots[i], i, state.focus == i);
            push_draw(&mut drawing, d);
        }
        assert(widget::draw_views(drawing@) =~= head + panels(cols@, state@, i as nat + 1));
    }
    push_draw(
        &mut drawing,
        Draw::Paragraph {
            area: rows[2],
            lines: lone(input_line(state)),
            block: Some(Block { title: Line::empty(), border: Style::plain() }),
            style: Style::plain(),
        },
    );
    let ghost main = widget::draw_views(drawing@);
    if state.show_raw {
        append_draws(&mut drawing, render_raw(area, state));
    }
    assert(widget::draw_views(drawing@) =~= main + (if state.show_raw {
        raw::overlay(area, state@)
    } else {
        Seq::empty()
    }));
    if let Some(d) = &state.dialog {
        append_draws(&mut drawing, render_dialog(area, d));
    }
    assert(widget::draw_views(drawing@) =~= screen(area, rows@, cols@, state@));
    drawing
}

/// Whether places may be those of the rows of a screen: they come of asking for one
/// line for the status, at least three for the panels and three for the input line,
/// and each is as wide as the screen and starts where it starts.
pub open spec fn rows_of(rows: Seq<Rect>, area: Rect) -> bool {
    &&& widget::may_divide(area, Axis::Down, widget::row_shares(), rows)
    &&& rows.len() == 3
    &&& forall|i: int|
        0 <= i < 3 ==> (#[trigger] rows[i]).x == area.x && rows[i].width == area.width
}

/// Whether places may be those of the panels in the middle row: they come of asking
/// for half of it each, and each is as high as it is and starts where it starts.
pub open spec fn cols_of(cols: Seq<Rect>, row: Rect) -> bool {
    &&& widget::may_divide(row, Axis::Across, widget::column_shares(), cols)
    &&& cols.len() == 2
    &&& forall|i: int|
        0 <= i < 2 ==> (#[trigger] cols[i]).y == row.y && cols[i].height == row.height
}

/// Draws the whole screen. One row is asked for the status, three for the input line
/// and at least three for the panels, and half of these for each panel; which places
/// come of that is up to the solver.
pub fn draw(area: Rect, state: &AppState) -> (drawing: Vec<Draw>)
    requires
        state@.in_focus(),
        state@.dialog is Some ==> area.wf(),
        state@.dialog matches Some(DialogView::Bind { slot, .. }) ==> slot < usize::MAX,
    ensures
        exists|rows: Seq<Rect>, cols: Seq<Rect>|
            rows_of(rows, area) && cols_of(cols, rows[1]) && widget::draw_views(drawing@)
                == #[trigger] screen(area, rows, cols, state@),
{
    let mut shares: Vec<Share> = Vec::new();
    shares.push(Share::Length(1));
    shares.push(Share::Min(3));
    shares.push(Share::Length(3));
    assert(shares@ =~= widget::row_shares());
    let rows = split(area, Axis::Down, &shares);
    let mut halves: Vec<Share> = Vec::new();
    halves.push(Share::Percentage(50));
    halves.push(Share::Percentage(50));
    assert(halves@ =~= widget::column_shares());
    let cols = split(rows[1], Axis::Across, &halves);
    assert(rows_of(rows@, area));
    assert(cols_of(cols@, rows@[1]));
    draw_in(area, &rows, &cols, state)
}

/// A dialog is drawn last, so that nothing lies over it; under it the raw view,
/// and under that the screen.
pub proof fn law_dialog_is_on_top(
    area: Rect,
    rows: Seq<Rect>,
    cols: Seq<Rect>,
    s: AppView,
    d: DialogView,
)
    requires
        s.dialog == Some(d),
    ensures
        dialog::overlay(area, d).is_suffix_of(screen(area, rows, cols, s)),
        s.show_raw ==> (raw::overlay(area, s) + dialog::overlay(area, d)).is_suffix_of(
            screen(area, rows, cols, s),
        ),
{
    let over = overlays(area, s);
    let whole = screen(area, rows, cols, s);
    let n = whole.len() - over.len();
    assert(whole.skip(n) =~= over);
}

/// What the status line says: the port, whether the line is up, being negotiated or down,
/// in words and in colour, and how many frames came, went and had a wrong check byte.
pub proof fn law_what_the_status_says(s: AppView)
    ensures
        ({
            let line = status(s);
            &&& line.len() == 4
            &&& line[0].text == s.port_desc.insert(0, ' ').push(' ')
            &&& line[1].text == "│ "@
            &&& match s.link {
                LinkState::Up => line[2].text == "● MUX UP"@ && line[2].style.fg == Some(
                    Color::Green,
                ),
                LinkState::Negotiating => line[2].text == "● 握手中"@ && line[2].style.fg == Some(
                    Color::Yellow,
                ),
                LinkState::Down => line[2].text == "● MUX DOWN"@ && line[2].style.fg == Some(
                    Color::Red,
                ),
            }
            &&& line[3].text == " │ rx "@ + text::decimal(s.stats.rx_frames) + (" tx "@
                + text::decimal(s.stats.tx_frames)) + (" │ fcs_err "@ + text::decimal(
                s.stats.fcs_errors,
            )).push(' ')
        }),
{
    reveal_strlit(" ");
    assert(status(s)[0].text =~= s.port_desc.insert(0, ' ').push(' '));
    assert(status(s)[3].text =~= " │ rx "@ + text::decimal(s.stats.rx_frames) + (" tx "@
        + text::decimal(s.stats.tx_frames)) + (" │ fcs_err "@ + text::decimal(
        s.stats.fcs_errors,
    )).push(' '));
}

/// What the input line says: its mode, the text as it was typed, a cursor, the channel
/// that it goes to, and the message in red where there is one.
pub proof fn law_what_the_input_line_says(s: AppView)
    ensures
        ({
            let line = prompt(s);
            &&& line.len() == (if s.notice is Some {
                8int
            } else {
                6
            })
            &&& match s.input.mode {
                InputMode::Ascii => line[0].text == seq![' ', 'A', 'S', 'C', 'I', 'I', ' '],
                InputMode::Hex => line[0].text == seq![' ', 'H', 'E', 'X', ' '],
            }
            &&& line[1].text == seq![' ']
            &&& line[2].text == s.input.buffer
            &&& line[3].text == "▌"@
            &&& line[5].text == (match s.slots[s.focus as int].dlci {
                Some(dlci) => "→ DLCI "@ + text::decimal(dlci as nat),
                None => "→ 无通道"@,
            })
            &&& s.notice matches Some(words) ==> line[7].text == words && line[7].style.fg == Some(
                Color::Red,
            )
        }),
{
    reveal_strlit(" ");
    reveal_strlit("ASCII");
    reveal_strlit("HEX");
    assert(" "@ =~= seq![' ']);
    assert(" "@ + "ASCII"@ + " "@ =~= seq![' ', 'A', 'S', 'C', 'I', 'I', ' ']);
    assert(" "@ + "HEX"@ + " "@ =~= seq![' ', 'H', 'E', 'X', ' ']);
}

/// What the screen is: the status in the first row, a panel for each slot in its column,
/// that of the slot in focus marked, the input line in the last row, and over these the
/// raw view and the dialog, where they are shown, and nothing else.
pub proof fn law_what_the_screen_is(
    area: Rect,
    rows: Seq<Rect>,
    cols: Seq<Rect>,
    s: AppView,
    i: int,
)
    requires
        cols.len() == s.slots.len(),
    ensures
        ({
            let whole = screen(area, rows, cols, s);
            let n = s.slots.len() as int;
            let over = (if s.show_raw {
                raw::overlay(area, s)
            } else {
                Seq::empty()
            }) + (match s.dialog {
                Some(d) => dialog::overlay(area, d),
                None => Seq::empty(),
            });
            &&& whole.len() == n + 2 + over.len()
            &&& whole[0] matches DrawView::Paragraph { area: at, lines, block, .. } && at == rows[0]
                && lines == seq![status(s)] && block is None
            &&& 0 <= i < n ==> whole[1 + i] == hexview::panel(
                cols[i],
                s.slots[i],
                i as nat,
                s.focus == i,
            )
            &&& whole[n + 1] matches DrawView::Paragraph { area: at, lines, block, .. } && at
                == rows[2] && lines == seq![prompt(s)] && block is Some
            &&& whole.skip(n + 2) == over
        }),
{
    let n = s.slots.len();
    lemma_panels(cols, s, n, i);
    let whole = screen(area, rows, cols, s);
    assert(whole.skip(n as int + 2) =~= overlays(area, s));
}

/// Panels are drawn one for each slot.
proof fn lemma_panels(cols: Seq<Rect>, s: AppView, n: nat, i: int)
    requires
        n <= cols.len(),
    ensures
        panels(cols, s, n).len() == n,
        0 <= i < n ==> panels(cols, s, n)[i] == hexview::panel(
            cols[i],
            s.slots[i],
            i as nat,
            s.focus == i,
        ),
    decreases n,
{
    if n > 0 {
        lemma_panels(cols, s, (n - 1) as nat, i);
    }
}

/// What is asked for the parts of the screen, from top to bottom and from left to right:
/// one row for the status, at least three for the panels and three for the input line, and
/// half of the middle one for each panel. The parts that come of it are as wide, or as
/// high, as what was divided.
pub proof fn law_what_is_asked_for_the_parts(area: Rect, rows: Seq<Rect>, cols: Seq<Rect>, i: int)
    requires
        rows_of(rows, area),
        cols_of(cols, rows[1]),
    ensures
        widget::may_divide(
            area,
            Axis::Down,
            seq![Share::Length(1), Share::Min(3), Share::Length(3)],
            rows,
        ),
        widget::may_divide(
            rows[1],
            Axis::Across,
            seq![Share::Percentage(50), Share::Percentage(50)],
            cols,
        ),
        rows.len() == 3,
        cols.len() == 2,
        0 <= i < 3 ==> rows[i].x == area.x && rows[i].width == area.width,
        0 <= i < 2 ==> cols[i].y == rows[1].y && cols[i].height == rows[1].height,
{
}

} // verus!
