//! The dialogs in the middle of the screen.
use crate::app::state::{Dialog, DialogView, CONTROL_ITEMS, HELP_KEYS};
#[allow(unused_imports)]
use crate::app::record;
#[allow(unused_imports)]
use crate::text;
use crate::text::{chars_of, push_decimal, push_repeated, push_text};
use crate::ui::widget::{
    push_draw, push_line, Block, BlockView, Color, Draw, DrawView, Line, Rect, Span, SpanView,
    Style,
};
#[allow(unused_imports)]
use crate::ui::widget;
use vstd::prelude::*;

verus! {

/// The smaller of two.
pub open spec fn smaller(a: u16, b: u16) -> u16 {
    if a <= b {
        a
    } else {
        b
    }
}

/// A place in the middle of another, cut down to what there is.
pub open spec fn middle(area: Rect, width: u16, height: u16) -> Rect {
    let w = smaller(width, area.width);
    let h = smaller(height, area.height);
    Rect {
        x: (area.x + (area.width - w) / 2) as u16,
        y: (area.y + (area.height - h) / 2) as u16,
        width: w,
        height: h,
    }
}

/// A line of plain text.
pub open spec fn plain_line(s: Seq<char>) -> Seq<SpanView> {
    seq![SpanView::plain(s)]
}

/// A line in the colour of hints.
pub open spec fn hint_line(s: Seq<char>) -> Seq<SpanView> {
    seq![SpanView::colored(s, Color::DarkGray)]
}

/// A control command in the list.
pub open spec fn item_line(item: Seq<char>, marked: bool) -> Seq<SpanView> {
    if marked {
        seq![
            SpanView {
                text: "  ▶ "@ + item,
                style: Style { fg: Some(Color::Yellow), bg: None, bold: true },
            },
        ]
    } else {
        seq![SpanView::plain("    "@ + item)]
    }
}

/// A key and what it does.
pub open spec fn key_line(key: Seq<char>, what: Seq<char>) -> Seq<SpanView> {
    seq![
        SpanView::colored("  "@ + record::padded(key, 16), Color::Yellow),
        SpanView::plain(what),
    ]
}

/// The first `n` keys of the help.
pub open spec fn key_lines(n: nat) -> Seq<Seq<SpanView>>
    decreases n,
{
    if n == 0 {
        Seq::empty()
    } else {
        key_lines((n - 1) as nat).push(
            key_line(HELP_KEYS[n - 1].0@, HELP_KEYS[n - 1].1@),
        )
    }
}

/// What a dialog says.
pub open spec fn dialog_lines(d: DialogView) -> Seq<Seq<SpanView>> {
    match d {
        DialogView::Bind { slot, input } => seq![
            plain_line("  绑定到槽位 "@ + text::decimal(slot as nat + 1)),
            Seq::empty(),
            seq![
                SpanView::plain("  DLCI: "@),
                SpanView::colored(input, Color::Yellow),
                SpanView::colored("▌"@, Color::Yellow),
            ],
            Seq::empty(),
            hint_line("  取值 1-63，回车确认，Esc 取消"@),
        ],
        DialogView::Control { selected } => seq![
            Seq::empty(),
            item_line(CONTROL_ITEMS[0]@, selected == 0),
            item_line(CONTROL_ITEMS[1]@, selected == 1),
            item_line(CONTROL_ITEMS[2]@, selected == 2),
            Seq::empty(),
            hint_line("  ↑↓ 选择，回车执行，Esc 取消"@),
        ],
        DialogView::Help => key_lines(13) + seq![Seq::empty(), hint_line("  按任意键关闭"@)],
    }
}

/// The title of a dialog.
pub open spec fn dialog_title(d: DialogView) -> Seq<char> {
    match d {
        DialogView::Bind { .. } => " 打开通道 "@,
        DialogView::Control { .. } => " 控制通道命令 "@,
        DialogView::Help => " 快捷键 "@,
    }
}

/// The width of a dialog.
pub open spec fn dialog_width(d: DialogView) -> u16 {
    match d {
        DialogView::Bind { .. } => 44,
        DialogView::Control { .. } => 48,
        DialogView::Help => 60,
    }
}

/// The height of a dialog.
pub open spec fn dialog_height(d: DialogView) -> u16 {
    match d {
        DialogView::Bind { .. } => 7,
        DialogView::Control { .. } => 8,
        DialogView::Help => 17,
    }
}

/// A dialog in the middle of a place, over whatever was there.
pub open spec fn overlay(area: Rect, d: DialogView) -> Seq<DrawView> {
    let place = middle(area, dialog_width(d), dialog_height(d));
    seq![
        DrawView::Clear(place),
        DrawView::Paragraph {
            area: place,
            lines: dialog_lines(d),
            block: Some(
                BlockView {
                    title: plain_line(dialog_title(d)),
                    border: Style::of_color(Color::Yellow),
                },
            ),
            style: Style::as_is(),
        },
    ]
}

/// A place in the middle of another, cut down to what there is.
fn centered(area: Rect, width: u16, height: u16) -> (r: Rect)
    requires
        area.wf(),
    ensures
        r == middle(area, width, height),
{
    let w: u16 = if width <= area.width {
        width
    } else {
        area.width
    };
    let h: u16 = if height <= area.height {
        height
    } else {
        area.height
    };
    Rect { x: area.x + (area.width - w) / 2, y: area.y + (area.height - h) / 2, width: w, height: h }
}

/// The lines that ask for a channel.
fn bind_lines(slot: usize, input: &str) -> (lines: Vec<Line>)
    requires
        slot < usize::MAX,
    ensures
        widget::line_views(lines@) == dialog_lines(DialogView::Bind { slot, input: input@ }),
{
    let mut head = String::new();
    push_text(&mut head, "  绑定到槽位 ");
    push_decimal(&mut head, slot as u64 + 1);
    assert(head@ =~= "  绑定到槽位 "@ + text::decimal(slot as nat + 1));
    let mut lines: Vec<Line> = Vec::new();
    push_line(&mut lines, Line::of(Span::raw(head.as_str())));
    push_line(&mut lines, Line::empty());
    let asked = Line::of(Span::raw("  DLCI: ")).with(Span::colored(input, Color::Yellow)).with(
        Span::colored("▌", Color::Yellow),
    );
    assert(asked@ =~= seq![
        SpanView::plain("  DLCI: "@),
        SpanView::colored(input@, Color::Yellow),
        SpanView::colored("▌"@, Color::Yellow),
    ]);
    push_line(&mut lines, asked);
    push_line(&mut lines, Line::empty());
    push_line(
        &mut lines,
        Line::of(Span::colored("  取值 1-63，回车确认，Esc 取消", Color::DarkGray)),
    );
    assert(widget::line_views(lines@) =~= dialog_lines(DialogView::Bind { slot, input: input@ }));
    lines
}

/// A control command in the list.
fn item(name: &str, marked: bool) -> (l: Line)
    ensures
        l@ == item_line(name@, marked),
{
    let mut words = String::new();
    if marked {
        push_text(&mut words, "  ▶ ");
    } else {
        push_text(&mut words, "    ");
    }
    push_text(&mut words, name);
    let style = if marked {
        assert(words@ =~= "  ▶ "@ + name@);
        Style { fg: Some(Color::Yellow), bg: None, bold: true }
    } else {
        assert(words@ =~= "    "@ + name@);
        Style::plain()
    };
    Line::of(Span::styled(words.as_str(), style))
}

/// The list of control commands.
fn control_lines(selected: usize) -> (lines: Vec<Line>)
    ensures
        widget::line_views(lines@) == dialog_lines(DialogView::Control { selected }),
{
    let mut lines: Vec<Line> = Vec::new();
    push_line(&mut lines, Line::empty());
    push_line(&mut lines, item(CONTROL_ITEMS[0], selected == 0));
    push_line(&mut lines, item(CONTROL_ITEMS[1], selected == 1));
    push_line(&mut lines, item(CONTROL_ITEMS[2], selected == 2));
    push_line(&mut lines, Line::empty());
    push_line(
        &mut lines,
        Line::of(Span::colored("  ↑↓ 选择，回车执行，Esc 取消", Color::DarkGray)),
    );
    assert(widget::line_views(lines@) =~= dialog_lines(DialogView::Control { selected }));
    lines
}

/// The keys and what they do.
fn help_lines() -> (lines: Vec<Line>)
    ensures
        widget::line_views(lines@) == dialog_lines(DialogView::Help),
{
    let mut lines: Vec<Line> = Vec::new();
    assert(widget::line_views(lines@) =~= Seq::empty());
    for i in 0usize..13
        invariant
            widget::line_views(lines@) == key_lines(i as nat),
    {
        let (key, what) = HELP_KEYS[i];
        let mut name = String::new();
        push_text(&mut name, "  ");
        push_text(&mut name, key);
        let len: usize = chars_of(key).len();
        if len < 16 {
            push_repeated(&mut name, ' ', 16 - len);
        }
        assert(name@ =~= "  "@ + record::padded(key@, 16));
        let line = Line::of(Span::colored(name.as_str(), Color::Yellow)).with(Span::raw(what));
        assert(line@ =~= key_line(key@, what@));
        push_line(&mut lines, line);
    }
    push_line(&mut lines, Line::empty());
    push_line(&mut lines, Line::of(Span::colored("  按任意键关闭", Color::DarkGray)));
    assert(widget::line_views(lines@) =~= dialog_lines(DialogView::Help));
    lines
}

/// Draws a dialog in the middle of a place.
pub fn render_dialog(area: Rect, dialog: &Dialog) -> (drawing: Vec<Draw>)
    requires
        area.wf(),
        dialog@ matches DialogView::Bind { slot, .. } ==> slot < usize::MAX,
    ensures
        widget::draw_views(drawing@) == overlay(area, dialog@),
{
    let (title, lines, place) = match dialog {
        Dialog::Bind { slot, input } => (
            " 打开通道 ",
            bind_lines(*slot, input.as_str()),
            centered(area, 44, 7),
        ),
        Dialog::Control { selected } => (
            " 控制通道命令 ",
            control_lines(*selected),
            centered(area, 48, 8),
        ),
        Dialog::Help => (" 快捷键 ", help_lines(), centered(area, 60, 17)),
    };
    let block = Block {
        title: Line::of(Span::raw(title)),
        border: Style::colored(Color::Yellow),
    };
    let mut drawing: Vec<Draw> = Vec::new();
    push_draw(&mut drawing, Draw::Clear(place));
    push_draw(
        &mut drawing,
        Draw::Paragraph { area: place, lines, block: Some(block), style: Style::plain() },
    );
    assert(widget::draw_views(drawing@) =~= overlay(area, dialog@));
    drawing
}

/// A dialog never leaves the place it is drawn in.
pub proof fn law_dialog_stays_inside(area: Rect, d: DialogView)
    requires
        area.wf(),
    ensures
        ({
            let place = middle(area, dialog_width(d), dialog_height(d));
            &&& area.x <= place.x
            &&& area.y <= place.y
            &&& place.x + place.width <= area.x + area.width
            &&& place.y + place.height <= area.y + area.height
        }),
{
}

/// Where a dialog is: it has its size, or what there is where that is less, and as much
/// room before it as behind it, but for one row or column where that is odd.
pub proof fn law_dialog_is_in_the_middle(area: Rect, width: u16, height: u16)
    requires
        area.wf(),
    ensures
        ({
            let place = middle(area, width, height);
            let left = place.x - area.x;
            let right = area.x + area.width - (place.x + place.width);
            let above = place.y - area.y;
            let below = area.y + area.height - (place.y + place.height);
            &&& width <= area.width ==> place.width == width
            &&& width > area.width ==> place.width == area.width
            &&& height <= area.height ==> place.height == height
            &&& height > area.height ==> place.height == area.height
            &&& 0 <= left && (right == left || right == left + 1)
            &&& 0 <= above && (below == above || below == above + 1)
        }),
{
}

/// What the dialog for a channel says: the slot by its number, and the number typed so
/// far; and what the list of commands says: all three, the one marked with an arrow.
pub proof fn law_what_dialogs_say(slot: usize, typed: Seq<char>, selected: usize, i: int)
    requires
        0 <= i < 3,
    ensures
        ({
            let lines = dialog_lines(DialogView::Bind { slot, input: typed });
            &&& lines.len() == 5
            &&& lines[0].len() == 1 && lines[0][0].text == "  绑定到槽位 "@ + text::decimal(
                slot as nat + 1,
            )
            &&& lines[2].len() == 3 && lines[2][0].text == "  DLCI: "@ && lines[2][1].text == typed
                && lines[2][2].text == "▌"@
            &&& lines[4].len() == 1 && lines[4][0].text == "  取值 1-63，回车确认，Esc 取消"@
        }),
        ({
            let lines = dialog_lines(DialogView::Control { selected });
            let name = if i == 0 {
                CONTROL_ITEMS[0]@
            } else if i == 1 {
                CONTROL_ITEMS[1]@
            } else {
                CONTROL_ITEMS[2]@
            };
            &&& lines.len() == 6
            &&& lines[i + 1].len() == 1
            &&& selected == i ==> lines[i + 1][0].text == "  ▶ "@ + name && lines[i
                + 1][0].style.bold
            &&& selected != i ==> lines[i + 1][0].text == "    "@ + name && !lines[i
                + 1][0].style.bold
            &&& lines[5].len() == 1 && lines[5][0].text == "  ↑↓ 选择，回车执行，Esc 取消"@
        }),
{
}

/// What the help says: each key, filled up to sixteen columns behind two blanks, and what
/// it does, in their order, and that any key closes it.
pub proof fn law_what_the_help_says(i: int)
    requires
        0 <= i < 13,
    ensures
        ({
            let lines = dialog_lines(DialogView::Help);
            let (key, what) = (HELP_KEYS[i].0@, HELP_KEYS[i].1@);
            let shown = lines[i][0].text;
            &&& lines.len() == 15
            &&& lines[i].len() == 2
            &&& lines[i][1].text == what
            &&& key.len() <= 16 ==> shown.len() == 18
            &&& shown[0] == ' ' && shown[1] == ' '
            &&& forall|k: int| 0 <= k < key.len() ==> #[trigger] shown[k + 2] == key[k]
            &&& forall|k: int| key.len() + 2 <= k < shown.len() ==> #[trigger] shown[k] == ' '
            &&& lines[14].len() == 1 && lines[14][0].text == "  按任意键关闭"@
        }),
{
    reveal_strlit("  ");
    lemma_key_lines(13, i);
}

proof fn lemma_key_lines(n: nat, i: int)
    ensures
        key_lines(n).len() == n,
        0 <= i < n ==> key_lines(n)[i] == key_line(HELP_KEYS[i].0@, HELP_KEYS[i].1@),
    decreases n,
{
    if n > 0 {
        lemma_key_lines((n - 1) as nat, i);
    }
}

/// A dialog wipes its place and is drawn there, in its border and under its title.
pub proof fn law_dialog_is_drawn(area: Rect, d: DialogView)
    ensures
        overlay(area, d).len() == 2,
        ({
            let (width, height, title) = match d {
                DialogView::Bind { .. } => (44u16, 7u16, " 打开通道 "@),
                DialogView::Control { .. } => (48u16, 8u16, " 控制通道命令 "@),
                DialogView::Help => (60u16, 17u16, " 快捷键 "@),
            };
            let place = middle(area, width, height);
            &&& overlay(area, d)[0] == DrawView::Clear(place)
            &&& overlay(area, d)[1] matches DrawView::Paragraph { area: at, lines, block, .. } && {
                &&& at == place
                &&& lines == dialog_lines(d)
                &&& block matches Some(b) && b.title.len() == 1 && b.title[0].text == title
            }
        }),
{
}

} // verus!
