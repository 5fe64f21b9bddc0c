//! Pieces of a drawing: styled text, frames around it, and where they go.
#[allow(unused_imports)]
use crate::app::state;
use ratatui::layout::{Constraint, Direction, Layout};
use std::collections::VecDeque;
use vstd::prelude::*;
use vstd::string::*;

verus! {

/// A colour of the terminal.
#[derive(Debug, Clone, Copy, PartialEq, Eq, Structural)]
pub enum Color {
    Black,
    Red,
    Green,
    Yellow,
    Magenta,
    Cyan,
    Gray,
    DarkGray,
    White,
    Rgb(u8, u8, u8),
}

/// How text looks.
#[derive(Debug, Clone, Copy, PartialEq, Eq, Structural)]
pub struct Style {
    pub fg: Option<Color>,
    pub bg: Option<Color>,
    pub bold: bool,
}

impl Style {
    /// Nothing special.
    pub open spec fn as_is() -> Style {
        Style { fg: None, bg: None, bold: false }
    }

    /// Text in a colour.
    pub open spec fn of_color(fg: Color) -> Style {
        Style { fg: Some(fg), bg: None, bold: false }
    }

    /// Nothing special.
    pub fn plain() -> (s: Style)
        ensures
            s == Style::as_is(),
    {
        Style { fg: None, bg: None, bold: false }
    }

    /// Text in a colour.
    pub fn colored(fg: Color) -> (s: Style)
        ensures
            s == Style::of_color(fg),
    {
        Style { fg: Some(fg), bg: None, bold: false }
    }
}

/// A place on the terminal.
#[derive(Debug, Clone, Copy, PartialEq, Eq, Structural)]
pub struct Rect {
    pub x: u16,
    pub y: u16,
    pub width: u16,
    pub height: u16,
}

impl Rect {
    /// The far edges have coordinates.
    pub open spec fn wf(self) -> bool {
        self.x + self.width <= u16::MAX && self.y + self.height <= u16::MAX
    }

    /// The place within a border all around.
    pub open spec fn inside(self) -> Rect {
        let right = if self.x + self.width > u16::MAX {
            u16::MAX as int
        } else {
            self.x + self.width
        };
        let bottom = if self.y + self.height > u16::MAX {
            u16::MAX as int
        } else {
            self.y + self.height
        };
        Rect {
            x: if self.x + 1 <= right {
                (self.x + 1) as u16
            } else {
                right as u16
            },
            y: if self.y + 1 <= bottom {
                (self.y + 1) as u16
            } else {
                bottom as u16
            },
            width: if self.width >= 2 {
                (self.width - 2) as u16
            } else {
                0
            },
            height: if self.height >= 2 {
                (self.height - 2) as u16
            } else {
                0
            },
        }
    }
}

/// The place within a border all around.
///
/// Calls `Block::inner` of `ratatui` on a block with all four borders: one column
/// goes on each side and one row at the top and at the bottom, as far as there
/// are any, and the corner moves in by one but not past the far edge.
#[verifier::external_body]
pub(crate) fn bordered_inner(area: Rect) -> (r: Rect)
    ensures
        r == area.inside(),
{
    let Rect { x, y, width, height } = area;
    let outer = ratatui::layout::Rect { x, y, width, height };
    let inner = ratatui::widgets::Block::bordered().inner(outer);
    Rect { x: inner.x, y: inner.y, width: inner.width, height: inner.height }
}

/// How much room a part wants.
#[derive(Debug, Clone, Copy, PartialEq, Eq, Structural)]
pub enum Share {
    /// Exactly so much.
    Length(u16),
    /// At least so much.
    Min(u16),
    /// So much of a hundred.
    Percentage(u16),
}

/// Which way a place is divided.
#[derive(Debug, Clone, Copy, PartialEq, Eq, Structural)]
pub enum Axis {
    /// From top to bottom.
    Down,
    /// From left to right.
    Across,
}

/// What is asked for the rows of the screen: one line for the status, at least three
/// for the panels, three for the input line.
pub open spec fn row_shares() -> Seq<Share> {
    seq![Share::Length(1), Share::Min(3), Share::Length(3)]
}

/// What is asked for the columns of the screen: half and half.
pub open spec fn column_shares() -> Seq<Share> {
    seq![Share::Percentage(50), Share::Percentage(50)]
}

/// Whether `Layout::split` of `ratatui` may divide a place into these parts when it
/// is asked for these shares. Where the shares compete, more than one division may
/// come out.
pub uninterp spec fn may_divide(
    area: Rect,
    axis: Axis,
    shares: Seq<Share>,
    parts: Seq<Rect>,
) -> bool;

/// Divides a place into the rows or the columns of the screen.
///
/// Calls `Layout::split` of `ratatui`. There is a part for each share, and across
/// the direction of the division each part is as large as the whole. How long the
/// parts are along it comes out of a solver that works with floating point numbers
/// and walks hash maps: the result is one that [`may_divide`] admits, and which one
/// is not said.
#[verifier::external_body]
pub(crate) fn split(area: Rect, axis: Axis, shares: &Vec<Share>) -> (parts: Vec<Rect>)
    requires
        shares@ == row_shares() || shares@ == column_shares(),
    ensures
        may_divide(area, axis, shares@, parts@),
        parts@.len() == shares@.len(),
        forall|i: int|
            0 <= i < parts@.len() ==> match axis {
                Axis::Down => (#[trigger] parts@[i]).x == area.x && parts@[i].width == area.width,
                Axis::Across => parts@[i].y == area.y && parts@[i].height == area.height,
            },
{
    let shares = shares.iter().map(|s| match s {
        Share::Length(n) => Constraint::Length(*n),
        Share::Min(n) => Constraint::Min(*n),
        Share::Percentage(n) => Constraint::Percentage(*n),
    });
    let direction = match axis {
        Axis::Down => Direction::Vertical,
        Axis::Across => Direction::Horizontal,
    };
    let Rect { x, y, width, height } = area;
    let parts = Layout::new(direction, shares);
    let parts = parts.split(ratatui::layout::Rect { x, y, width, height });
    parts.iter().map(|r| Rect { x: r.x, y: r.y, width: r.width, height: r.height }).collect()
}

/// A piece of styled text.
#[derive(Debug)]
pub struct Span {
    pub text: String,
    pub style: Style,
}

/// What a [`Span`] holds.
#[verifier::ext_equal]
pub struct SpanView {
    pub text: Seq<char>,
    pub style: Style,
}

impl View for Span {
    type V = SpanView;

    open spec fn view(&self) -> SpanView {
        SpanView { text: self.text@, style: self.style }
    }
}

impl Clone for Span {
    fn clone(&self) -> (s: Self)
        ensures
            s@ == self@,
    {
        Span { text: self.text.clone(), style: self.style }
    }
}

impl SpanView {
    /// Text with nothing special about it.
    pub open spec fn plain(text: Seq<char>) -> SpanView {
        SpanView { text, style: Style::as_is() }
    }

    /// Text in a colour.
    pub open spec fn colored(text: Seq<char>, fg: Color) -> SpanView {
        SpanView { text, style: Style::of_color(fg) }
    }
}

impl Span {
    /// Text with nothing special about it.
    pub fn raw(text: &str) -> (s: Span)
        ensures
            s@ == SpanView::plain(text@),
    {
        Span { text: text.to_string(), style: Style::plain() }
    }

    /// Text in a style.
    pub fn styled(text: &str, style: Style) -> (s: Span)
        ensures
            s@ == (SpanView { text: text@, style }),
    {
        Span { text: text.to_string(), style }
    }

    /// Text in a colour.
    pub fn colored(text: &str, fg: Color) -> (s: Span)
        ensures
            s@ == SpanView::colored(text@, fg),
    {
        Span { text: text.to_string(), style: Style::colored(fg) }
    }
}

/// A line of styled text.
#[derive(Debug)]
pub struct Line {
    pub spans: Vec<Span>,
}

/// What a list of spans holds.
pub open spec fn span_views(spans: Seq<Span>) -> Seq<SpanView> {
    spans.map_values(|s: Span| s@)
}

impl View for Line {
    type V = Seq<SpanView>;

    open spec fn view(&self) -> Seq<SpanView> {
        span_views(self.spans@)
    }
}

impl Line {
    /// A line with nothing on it.
    pub fn empty() -> (l: Line)
        ensures
            l@ == Seq::<SpanView>::empty(),
    {
        let l = Line { spans: Vec::new() };
        assert(l@ =~= Seq::empty());
        l
    }

    /// The line with one more piece.
    pub fn with(self, span: Span) -> (l: Line)
        ensures
            l@ == self@.push(span@),
    {
        let mut spans = self.spans;
        let ghost before = spans@;
        let ghost piece = span@;
        spans.push(span);
        assert(span_views(spans@) =~= span_views(before).push(piece));
        Line { spans }
    }

    /// A line of one piece.
    pub fn of(span: Span) -> (l: Line)
        ensures
            l@ == seq![span@],
    {
        let l = Line::empty().with(span);
        assert(l@ =~= seq![span@]);
        l
    }
}

/// What a list of lines holds.
pub open spec fn line_views(lines: Seq<Line>) -> Seq<Seq<SpanView>> {
    lines.map_values(|l: Line| l@)
}

/// Appends a line.
pub fn push_line(lines: &mut Vec<Line>, line: Line)
    ensures
        line_views(final(lines)@) == line_views(old(lines)@).push(line@),
{
    lines.push(line);
    assert(line_views(lines@) =~= line_views(old(lines)@).push(line@));
}

/// A border with a title.
#[derive(Debug)]
pub struct Block {
    pub title: Line,
    pub border: Style,
}

/// What a [`Block`] holds.
#[verifier::ext_equal]
pub struct BlockView {
    pub title: Seq<SpanView>,
    pub border: Style,
}

impl View for Block {
    type V = BlockView;

    open spec fn view(&self) -> BlockView {
        BlockView { title: self.title@, border: self.border }
    }
}

/// Something to be drawn.
#[derive(Debug)]
pub enum Draw {
    /// Wipe the place clean.
    Clear(Rect),
    /// Put lines at a place, in a border where there is one.
    Paragraph { area: Rect, lines: Vec<Line>, block: Option<Block>, style: Style },
}

/// What a [`Draw`] holds.
#[verifier::ext_equal]
pub enum DrawView {
    Clear(Rect),
    Paragraph {
        area: Rect,
        lines: Seq<Seq<SpanView>>,
        block: Option<BlockView>,
        style: Style,
    },
}

impl View for Draw {
    type V = DrawView;

    open spec fn view(&self) -> DrawView {
        match self {
            Draw::Clear(area) => DrawView::Clear(*area),
            Draw::Paragraph { area, lines, block, style } => DrawView::Paragraph {
                area: *area,
                lines: line_views(lines@),
                block: match block {
                    Some(b) => Some(b@),
                    None => None,
                },
                style: *style,
            },
        }
    }
}

/// What a drawing holds.
pub open spec fn draw_views(drawing: Seq<Draw>) -> Seq<DrawView> {
    drawing.map_values(|d: Draw| d@)
}

/// Adds something to a drawing.
pub fn push_draw(drawing: &mut Vec<Draw>, d: Draw)
    ensures
        draw_views(final(drawing)@) == draw_views(old(drawing)@).push(d@),
{
    drawing.push(d);
    assert(draw_views(drawing@) =~= draw_views(old(drawing)@).push(d@));
}

/// Adds a drawing to another.
pub fn append_draws(drawing: &mut Vec<Draw>, more: Vec<Draw>)
    ensures
        draw_views(final(drawing)@) == draw_views(old(drawing)@) + draw_views(more@),
{
    let ghost start = draw_views(drawing@);
    let ghost all = more@;
    for d in it: more
        invariant
            it.seq() == all,
            draw_views(drawing@) == start + draw_views(all.take(it.index())),
    {
        let ghost i = it.index();
        assert(draw_views(all.take(i + 1)) =~= draw_views(all.take(i)).push(d@));
        push_draw(drawing, d);
        assert(draw_views(drawing@) =~= start + draw_views(all.take(i + 1)));
    }
    assert(all.take(all.len() as int) =~= all);
    assert(start + draw_views(all.take(0)) =~= start);
}

/// The last lines of something long, gathered from the end.
struct Tail {
    lines: VecDeque<Line>,
    want: usize,
}

impl View for Tail {
    type V = Seq<Seq<SpanView>>;

    closed spec fn view(&self) -> Seq<Seq<SpanView>> {
        line_views(self.lines@)
    }
}

/// What lies before enough lines does not matter.
proof fn lemma_latest_of_enough<T>(a: Seq<T>, b: Seq<T>, want: nat)
    requires
        b.len() >= want,
    ensures
        state::latest(a + b, want) == state::latest(b, want),
{
    assert(state::latest(a + b, want) =~= state::latest(b, want));
}

impl Tail {
    /// Nothing gathered yet.
    fn new(want: usize) -> (t: Tail)
        ensures
            t@ == Seq::<Seq<SpanView>>::empty(),
            t.want == want,
    {
        let t = Tail { lines: VecDeque::new(), want };
        assert(t@ =~= Seq::empty());
        t
    }

    /// Whether enough is gathered.
    fn is_full(&self) -> (r: bool)
        ensures
            r == (self@.len() >= self.want),
    {
        self.lines.len() >= self.want
    }

    /// Puts lines in front of what is gathered, as many as are still wanted.
    fn put_before(&mut self, block: Vec<Line>)
        requires
            old(self)@.len() <= old(self).want,
        ensures
            final(self)@ == state::latest(
                line_views(block@) + old(self)@,
                old(self).want as nat,
            ),
            final(self).want == old(self).want,
    {
        let ghost start = self@;
        let ghost all = line_views(block@);
        let mut block = block;
        while block.len() > 0 && self.lines.len() < self.want
            invariant
                self.want == old(self).want,
                block@.len() <= all.len(),
                line_views(block@) == all.take(block@.len() as int),
                self@ == all.skip(block@.len() as int) + start,
                self@.len() <= self.want,
            decreases block@.len(),
        {
            let ghost before = block@;
            let ghost k = block@.len() - 1;
            let ghost shown = self.lines@;
            if let Some(line) = block.pop() {
                assert(line_views(before)[k] == line@);
                assert(all[k] == line@);
                self.lines.push_front(line);
                assert(line_views(self.lines@) =~= seq![line@] + line_views(shown));
                assert(self@ =~= all.skip(k) + start);
                assert(line_views(block@) =~= all.take(k));
            }
        }
        assert(self@ =~= state::latest(all + start, self.want as nat));
    }

    /// What is gathered, in order.
    fn into_lines(self) -> (lines: Vec<Line>)
        ensures
            line_views(lines@) == self@,
    {
        let mut deque = self.lines;
        let ghost all = self@;
        let mut lines: Vec<Line> = Vec::new();
        assert(line_views(lines@) + line_views(deque@) =~= all);
        while deque.len() > 0
            invariant
                line_views(lines@) + line_views(deque@) == all,
            decreases deque@.len(),
        {
            let ghost before = deque@;
            let ghost shown = lines@;
            if let Some(line) = deque.pop_front() {
                lines.push(line);
                assert(line_views(lines@) =~= line_views(shown).push(line@));
                assert(line_views(deque@) =~= line_views(before).drop_first());
                assert(line_views(before)[0] == line@);
                assert(line_views(lines@) + line_views(deque@) =~= line_views(shown) + line_views(
                    before,
                ));
            }
        }
        assert(line_views(lines@) =~= all);
        lines
    }
}

/// Blocks of lines, one behind the other.
pub open spec fn stacked(blocks: Seq<Seq<Seq<SpanView>>>) -> Seq<Seq<SpanView>>
    decreases blocks.len(),
{
    if blocks.len() == 0 {
        Seq::empty()
    } else {
        blocks[0] + stacked(blocks.drop_first())
    }
}

/// The lines of two lists of blocks.
pub proof fn lemma_stacked_both(a: Seq<Seq<Seq<SpanView>>>, b: Seq<Seq<Seq<SpanView>>>)
    ensures
        stacked(a + b) == stacked(a) + stacked(b),
    decreases a.len(),
{
    if a.len() == 0 {
        assert(a + b =~= b);
        assert(stacked(a) + stacked(b) =~= stacked(b));
    } else {
        lemma_stacked_both(a.drop_first(), b);
        assert((a + b).drop_first() =~= a.drop_first() + b);
        assert(stacked(a + b) =~= stacked(a) + stacked(b));
    }
}

/// Something that is shown in blocks of lines.
pub trait Blocks {
    /// All the blocks, from the first to the last.
    spec fn blocks(&self) -> Seq<Seq<Seq<SpanView>>>;

    /// How many there are.
    fn count(&self) -> (n: usize)
        ensures
            n == self.blocks().len(),
    ;

    /// The lines of one of them.
    fn block(&self, i: usize) -> (lines: Vec<Line>)
        requires
            i < self.blocks().len(),
        ensures
            line_views(lines@) == self.blocks()[i as int],
    ;
}

/// The last lines of blocks, as many as are wanted. No more blocks are made than that
/// takes.
pub fn last_lines<B: Blocks>(source: &B, want: usize) -> (lines: Vec<Line>)
    ensures
        line_views(lines@) == state::latest(stacked(source.blocks()), want as nat),
{
    let n: usize = source.count();
    let ghost all = source.blocks();
    let mut tail = Tail::new(want);
    let mut i: usize = n;
    assert(all.skip(n as int) =~= Seq::empty());
    while i > 0 && !tail.is_full()
        invariant
            i <= n,
            all == source.blocks(),
            n == all.len(),
            tail.want == want,
            tail@ == state::latest(stacked(all.skip(i as int)), want as nat),
        decreases i,
    {
        let ghost later = all.skip(i as int);
        i = i - 1;
        let block = source.block(i);
        tail.put_before(block);
        proof {
            let first = all[i as int];
            let rest = stacked(later);
            assert(all.skip(i as int).drop_first() =~= later);
            assert(state::latest(first + state::latest(rest, want as nat), want as nat)
                =~= state::latest(first + rest, want as nat));
        }
    }
    proof {
        let before = all.take(i as int);
        let after = all.skip(i as int);
        assert(before + after =~= all);
        lemma_stacked_both(before, after);
        if i > 0 {
            lemma_latest_of_enough(stacked(before), stacked(after), want as nat);
        } else {
            assert(before =~= Seq::empty());
            assert(stacked(before) + stacked(after) =~= stacked(after));
        }
    }
    tail.into_lines()
}

/// Blocks stand in their order with nothing between: those of a list that is put together
/// of two are those of the one and then those of the other, and one alone is itself.
pub proof fn law_blocks_stand_in_order(a: Seq<Seq<Seq<SpanView>>>, b: Seq<Seq<Seq<SpanView>>>)
    ensures
        stacked(a + b) == stacked(a) + stacked(b),
        a.len() == 0 ==> stacked(a).len() == 0,
        a.len() == 1 ==> stacked(a) == a[0],
{
    lemma_stacked_both(a, b);
    reveal_with_fuel(stacked, 2);
    if a.len() == 1 {
        assert(a.drop_first() =~= Seq::empty());
        assert(a[0] + Seq::<Seq<SpanView>>::empty() =~= a[0]);
    }
}

/// A border takes one column on each side and one row above and below, as far as there
/// are any.
pub proof fn law_border_takes_one_each(area: Rect)
    requires
        area.wf(),
        area.width >= 2,
        area.height >= 2,
    ensures
        area.inside().x == area.x + 1,
        area.inside().y == area.y + 1,
        area.inside().width == area.width - 2,
        area.inside().height == area.height - 2,
{
}

} // verus!
