//! What each screen shows.
//!
//! A screen is a list of widgets, each with the area that it is drawn in. The layout solver of
//! ratatui divides the screen; everything else about a screen is fixed by the state.
use crate::kube::context::KubeContextView;
use crate::kube::services::{self, KubeService, KubeServiceView};
use crate::network::service_map;
use crate::text::{self, concat_text, lines_of, push_digits, push_viewed, same_text};
use crate::tui::app::{
    self, position_of_entry, App, AppView, ContextRow, Mode, Screen, SplashState,
    SplashStateView, ToastView,
};
use ratatui::layout::{Layout, Rect};
use vstd::prelude::*;

verus! {

// ── Areas ───────────────────────────────────────────────

/// A rectangle of character cells.
#[derive(Debug, Clone, Copy, PartialEq, Eq, Structural)]
pub struct Area {
    pub x: u16,
    pub y: u16,
    pub width: u16,
    pub height: u16,
}

/// The direction in which the pieces of an area follow one another.
#[derive(Debug, Clone, Copy, PartialEq, Eq, Structural)]
pub enum Direction {
    Vertical,
    Horizontal,
}

/// How long a piece of an area should be.
#[derive(Debug, Clone, Copy, PartialEq, Eq, Structural)]
pub enum Constraint {
    /// So many cells.
    Length(u16),
    /// So many cells or more.
    Min(u16),
    /// So many hundredths of the area.
    Percentage(u16),
}

impl DeepView for Area {
    type V = Area;

    open spec fn deep_view(&self) -> Area {
        *self
    }
}

/// The position at which an area starts, along the direction.
pub open spec fn start(direction: Direction, area: Area) -> int {
    match direction {
        Direction::Vertical => area.y as int,
        Direction::Horizontal => area.x as int,
    }
}

/// How long an area is, along the direction.
pub open spec fn extent(direction: Direction, area: Area) -> int {
    match direction {
        Direction::Vertical => area.height as int,
        Direction::Horizontal => area.width as int,
    }
}

/// The length that a constraint asks for in an area of the given extent, in hundredths of a cell.
pub open spec fn asked(constraint: Constraint, extent: int) -> int {
    match constraint {
        Constraint::Length(n) => 100 * n,
        Constraint::Percentage(n) => n * extent,
        Constraint::Min(_) => 0,
    }
}

/// What the constraints ask for all together, in hundredths of a cell.
pub open spec fn total_asked(constraints: Seq<Constraint>, extent: int) -> int
    decreases constraints.len(),
{
    if constraints.len() == 0 {
        0
    } else {
        total_asked(constraints.drop_last(), extent) + asked(constraints.last(), extent)
    }
}

/// What the constraints of a fixed length ask for all together, in cells.
pub open spec fn total_length(constraints: Seq<Constraint>) -> int
    decreases constraints.len(),
{
    if constraints.len() == 0 {
        0
    } else {
        total_length(constraints.drop_last()) + (match constraints.last() {
            Constraint::Length(n) => n as int,
            _ => 0,
        })
    }
}

/// No constraint asks for a minimum of its own.
pub open spec fn without_minimum(constraints: Seq<Constraint>) -> bool {
    forall|i: int|
        0 <= i < constraints.len() && (#[trigger] constraints[i]) is Min ==> constraints[i]
            == Constraint::Min(0)
}

/// Only the piece at `rest` takes what the others leave; behind the last piece stands for none.
pub open spec fn takes_rest(constraints: Seq<Constraint>, rest: int) -> bool {
    &&& 0 <= rest <= constraints.len()
    &&& rest < constraints.len() ==> constraints[rest] == Constraint::Min(0)
    &&& forall|i: int|
        0 <= i < constraints.len() && (#[trigger] constraints[i]) is Min ==> i == rest
}

/// Where the piece at `i` begins, in hundredths of a cell from the start of the area.
pub open spec fn boundary(constraints: Seq<Constraint>, rest: int, extent: int, i: int) -> int {
    total_asked(constraints.take(i), extent) + (if i > rest {
        100 * extent - total_asked(constraints, extent)
    } else {
        0
    })
}

/// Hundredths of a cell, rounded to whole cells; a half is rounded up.
pub open spec fn cells(hundredths: int) -> int {
    (hundredths + 50) / 100
}

/// The piece lies inside the area, and reaches over all of it across the direction.
pub open spec fn piece_inside(direction: Direction, area: Area, piece: Area) -> bool {
    &&& direction == Direction::Vertical ==> piece.x == area.x && piece.width == area.width
    &&& direction == Direction::Horizontal ==> piece.y == area.y && piece.height == area.height
    &&& start(direction, area) <= start(direction, piece)
    &&& start(direction, piece) + extent(direction, piece) <= start(direction, area) + extent(
        direction,
        area,
    )
}

/// The pieces follow one another from the start of the area, each as long as it was asked to be, and
/// the one at `rest` as long as the others leave room.
pub open spec fn packed(
    direction: Direction,
    constraints: Seq<Constraint>,
    rest: int,
    area: Area,
    pieces: Seq<Area>,
) -> bool {
    let size = extent(direction, area);
    forall|i: int|
        0 <= i < pieces.len() ==> start(direction, #[trigger] pieces[i]) == start(direction, area)
            + cells(boundary(constraints, rest, size, i)) && extent(direction, pieces[i]) == cells(
            boundary(constraints, rest, size, i + 1),
        ) - cells(boundary(constraints, rest, size, i))
}

/// The pieces follow one another from the start of the area.
pub open spec fn in_a_row(direction: Direction, area: Area, pieces: Seq<Area>) -> bool {
    &&& pieces.len() > 0 ==> start(direction, pieces[0]) == start(direction, area)
    &&& forall|i: int, j: int|
        0 <= i && j == i + 1 && j < pieces.len() ==> start(direction, #[trigger] pieces[j]) == start(
            direction,
            #[trigger] pieces[i],
        ) + extent(direction, pieces[i])
}

/// The pieces of a fixed length have it.
pub open spec fn lengths_kept(
    direction: Direction,
    constraints: Seq<Constraint>,
    pieces: Seq<Area>,
) -> bool {
    forall|i: int|
        0 <= i < pieces.len() ==> (constraints[i] matches Constraint::Length(n) ==> extent(
            direction,
            #[trigger] pieces[i],
        ) == n)
}

/// The pieces fill the area to its end, and none is longer than it was asked to be, up to rounding.
/// Where the fixed lengths fill the area alone, they leave nothing for a percentage.
pub open spec fn crowded(
    direction: Direction,
    constraints: Seq<Constraint>,
    area: Area,
    pieces: Seq<Area>,
) -> bool {
    let size = extent(direction, area);
    &&& pieces.len() > 0 ==> start(direction, pieces.last()) + extent(direction, pieces.last())
        == start(direction, area) + size
    &&& forall|i: int|
        0 <= i < pieces.len() ==> 100 * (extent(direction, #[trigger] pieces[i]) - 1) < asked(
            constraints[i],
            size,
        )
    &&& forall|i: int|
        0 <= i < pieces.len() && total_length(constraints) >= size
            && constraints[i] is Percentage ==> extent(direction, #[trigger] pieces[i]) == 0
}

/// Fixed lengths between two percentages.
pub open spec fn framed(constraints: Seq<Constraint>) -> bool {
    &&& constraints.len() >= 3
    &&& constraints[0] is Percentage
    &&& constraints.last() is Percentage
    &&& forall|i: int| 0 < i < constraints.len() - 1 ==> (#[trigger] constraints[i]) is Length
}

/// Neighbours are drawn to the same length. So a percentage in front that asks for no more than the
/// length behind it is kept whole, as long as the one at the end does not fall below the length
/// before it; otherwise the one at the end is cut down to that length or further.
pub open spec fn front_goes_first(
    direction: Direction,
    constraints: Seq<Constraint>,
    area: Area,
    pieces: Seq<Area>,
) -> bool {
    let size = extent(direction, area);
    let front = asked(constraints[0], size);
    let before_last = asked(constraints[constraints.len() - 2], size);
    front <= asked(constraints[1], size) ==> if front + 100 * total_length(constraints) + before_last
        <= 100 * size {
        extent(direction, pieces[0]) == cells(front)
    } else {
        100 * extent(direction, pieces.last()) <= before_last
    }
}

/// The pieces of a divided area: as many as there are constraints, each inside the area and as wide
/// as it is across the direction. Where everything that is asked for fits, they are packed.
///
/// Fixed lengths go before percentages, and both before what is left: the pieces follow one another,
/// the fixed lengths are kept where they fit, and where more is asked for than there is, nothing is
/// left over. Of two percentages around fixed lengths that leave too little for both, the one in
/// front goes first.
pub open spec fn divided(
    direction: Direction,
    constraints: Seq<Constraint>,
    area: Area,
    pieces: Seq<Area>,
) -> bool {
    let size = extent(direction, area);
    let sound = without_minimum(constraints) && start(direction, area) + size <= u16::MAX;
    &&& pieces.len() == constraints.len()
    &&& forall|i: int|
        0 <= i < pieces.len() ==> piece_inside(direction, area, #[trigger] pieces[i])
    &&& forall|rest: int| #[trigger]
        takes_rest(constraints, rest) && sound && total_asked(constraints, size) <= 100 * size
            ==> packed(direction, constraints, rest, area, pieces)
    &&& sound ==> in_a_row(direction, area, pieces)
    &&& sound && total_length(constraints) <= size ==> lengths_kept(direction, constraints, pieces)
    &&& sound && total_asked(constraints, size) >= 100 * size ==> crowded(
        direction,
        constraints,
        area,
        pieces,
    )
    &&& sound && framed(constraints) && total_length(constraints) <= size && total_asked(
        constraints,
        size,
    ) >= 100 * size ==> front_goes_first(direction, constraints, area, pieces)
}

/// `ratatui::layout::Layout::split`: divides an area in one direction, without margins or spacing.
/// Believed without proof: what `divided` says of the pieces. The solver behind it weighs a fixed
/// length ten times a percentage, both far above room that is left to fill, and least of all that
/// neighbours have the same length. Where these weights leave a choice, the order in which the solver
/// meets its variables decides, and what comes out is not said: which of several fixed lengths is
/// cut, which of several percentages that the neighbours do not tell apart, and how several pieces
/// that take the rest share it.
#[verifier::external_body]
fn split_area(direction: Direction, constraints: &Vec<Constraint>, area: Area) -> (res: Vec<Area>)
    ensures
        divided(direction, constraints@, area, res@),
{
    let direction = match direction {
        Direction::Vertical => ratatui::layout::Direction::Vertical,
        Direction::Horizontal => ratatui::layout::Direction::Horizontal,
    };
    let constraints = constraints.iter().map(|c| match c {
        Constraint::Length(n) => ratatui::layout::Constraint::Length(*n),
        Constraint::Min(n) => ratatui::layout::Constraint::Min(*n),
        Constraint::Percentage(n) => ratatui::layout::Constraint::Percentage(*n),
    });
    let area = Rect { x: area.x, y: area.y, width: area.width, height: area.height };
    let pieces = Layout::new(direction, constraints).split(area);
    pieces.iter().map(|r| Area { x: r.x, y: r.y, width: r.width, height: r.height }).collect()
}

// ── Colors ──────────────────────────────────────────────

#[derive(Debug, Clone, Copy, PartialEq, Eq, Structural)]
pub enum Color {
    White,
    DarkGray,
    Cyan,
    Green,
    Yellow,
    Red,
    Rgb(u8, u8, u8),
}

pub const FG: Color = Color::White;

pub const DIM: Color = Color::DarkGray;

pub const ACCENT: Color = Color::Cyan;

pub const GREEN: Color = Color::Green;

pub const YELLOW: Color = Color::Yellow;

pub const RED: Color = Color::Red;

pub const BORDER: Color = Color::DarkGray;

/// The background of the selected row.
#[verifier::allow_in_spec]
pub fn selected_bg() -> (res: Color)
    returns
        Color::Rgb(30, 30, 46),
{
    Color::Rgb(30, 30, 46)
}

/// The color of table headers.
#[verifier::allow_in_spec]
pub fn header_fg() -> (res: Color)
    returns
        Color::Rgb(137, 180, 250),
{
    Color::Rgb(137, 180, 250)
}

/// How text looks; what is missing stays as it was.
#[derive(Debug, Clone, Copy, PartialEq, Eq)]
pub struct Style {
    pub fg: Option<Color>,
    pub bg: Option<Color>,
    pub bold: bool,
}

pub open spec fn plain_style() -> Style {
    Style { fg: None, bg: None, bold: false }
}

pub open spec fn fg_style(color: Color) -> Style {
    Style { fg: Some(color), bg: None, bold: false }
}

pub open spec fn bold_style(color: Color) -> Style {
    Style { fg: Some(color), bg: None, bold: true }
}

impl Style {
    pub fn plain() -> (res: Style)
        ensures
            res == plain_style(),
    {
        Style { fg: None, bg: None, bold: false }
    }

    pub fn fg(color: Color) -> (res: Style)
        ensures
            res == fg_style(color),
    {
        Style { fg: Some(color), bg: None, bold: false }
    }

    pub fn bold(color: Color) -> (res: Style)
        ensures
            res == bold_style(color),
    {
        Style { fg: Some(color), bg: None, bold: true }
    }
}

// ── Text ────────────────────────────────────────────────

/// A run of text in one style.
#[derive(Debug)]
pub struct Span {
    pub text: String,
    pub style: Style,
}

#[verifier::ext_equal]
pub struct SpanView {
    pub text: Seq<char>,
    pub style: Style,
}

impl View for Span {
    type V = SpanView;

    open spec fn view(&self) -> SpanView {
        SpanView { text: self.text@, style: self.style }
    }
}

impl DeepView for Span {
    type V = SpanView;

    open spec fn deep_view(&self) -> SpanView {
        self@
    }
}


/// A line of text. Its style lies under the styles of its spans.
#[derive(Debug)]
pub struct Line {
    pub spans: Vec<Span>,
    pub style: Style,
}

#[verifier::ext_equal]
pub struct LineView {
    pub spans: Seq<SpanView>,
    pub style: Style,
}

impl View for Line {
    type V = LineView;

    open spec fn view(&self) -> LineView {
        LineView { spans: self.spans.deep_view(), style: self.style }
    }
}

impl DeepView for Line {
    type V = LineView;

    open spec fn deep_view(&self) -> LineView {
        self@
    }
}


pub open spec fn span(text: Seq<char>, style: Style) -> SpanView {
    SpanView { text, style }
}

/// A line of spans.
pub open spec fn line(spans: Seq<SpanView>) -> LineView {
    LineView { spans, style: plain_style() }
}

/// A line of one span.
pub open spec fn text_line(text: Seq<char>, style: Style) -> LineView {
    line(seq![span(text, style)])
}

/// A line of plain text over a style of its own.
pub open spec fn styled_line(text: Seq<char>, style: Style) -> LineView {
    LineView { spans: seq![span(text, plain_style())], style }
}

impl Line {
    /// A line without text.
    pub fn new() -> (res: Line)
        ensures
            res@ == line(Seq::empty()),
    {
        let res = Line { spans: Vec::new(), style: Style::plain() };
        assert(res.spans.deep_view() =~= Seq::empty());
        res
    }

    /// The line with one more span.
    pub fn push(self, span: Span) -> (res: Line)
        ensures
            res@ == (LineView { spans: self@.spans.push(span@), style: self@.style }),
    {
        let mut spans = self.spans;
        push_viewed(&mut spans, span);
        Line { spans, style: self.style }
    }

    /// The line with one more span, of the given text.
    pub fn with(self, text: &str, style: Style) -> (res: Line)
        ensures
            res@ == (LineView { spans: self@.spans.push(span(text@, style)), style: self@.style }),
    {
        self.push(Span { text: text.to_string(), style })
    }

    /// A line of one span.
    pub fn of(text: &str, style: Style) -> (res: Line)
        ensures
            res@ == text_line(text@, style),
    {
        Line::new().with(text, style)
    }

    /// A line of plain text over a style of its own.
    pub fn styled(text: &str, style: Style) -> (res: Line)
        ensures
            res@ == styled_line(text@, style),
    {
        let res = Line::new().with(text, Style::plain());
        Line { spans: res.spans, style }
    }
}

// ── Widgets ─────────────────────────────────────────────

#[derive(Debug, Clone, Copy, PartialEq, Eq, Structural)]
pub enum Alignment {
    Left,
    Center,
    Right,
}

/// The sides of a widget that carry a border, in the color `BORDER`.
#[derive(Debug, Clone, Copy, PartialEq, Eq, Structural)]
pub enum Border {
    Bare,
    Top,
    Bottom,
    All,
}

/// Lines of text.
#[derive(Debug)]
pub struct Paragraph {
    pub lines: Vec<Line>,
    pub alignment: Alignment,
    pub border: Border,
}

#[verifier::ext_equal]
pub struct ParagraphView {
    pub lines: Seq<LineView>,
    pub alignment: Alignment,
    pub border: Border,
}

impl View for Paragraph {
    type V = ParagraphView;

    open spec fn view(&self) -> ParagraphView {
        ParagraphView {
            lines: self.lines.deep_view(),
            alignment: self.alignment,
            border: self.border,
        }
    }
}

impl DeepView for Paragraph {
    type V = ParagraphView;

    open spec fn deep_view(&self) -> ParagraphView {
        self@
    }
}


/// A row of a table, one line to a cell.
#[derive(Debug)]
pub struct Row {
    pub cells: Vec<Line>,
    pub style: Style,
}

#[verifier::ext_equal]
pub struct RowView {
    pub cells: Seq<LineView>,
    pub style: Style,
}

impl View for Row {
    type V = RowView;

    open spec fn view(&self) -> RowView {
        RowView { cells: self.cells.deep_view(), style: self.style }
    }
}

impl DeepView for Row {
    type V = RowView;

    open spec fn deep_view(&self) -> RowView {
        self@
    }
}


/// A table with a border all around. An empty line follows its header; the selected row has the
/// background `selected_bg` and the mark `HIGHLIGHT_SYMBOL`.
#[derive(Debug)]
pub struct Table {
    pub header: Row,
    pub rows: Vec<Row>,
    /// The least width of each column.
    pub widths: Vec<u16>,
    pub title: Span,
    pub selected: usize,
}

#[verifier::ext_equal]
pub struct TableView {
    pub header: RowView,
    pub rows: Seq<RowView>,
    pub widths: Seq<u16>,
    pub title: SpanView,
    pub selected: usize,
}

impl View for Table {
    type V = TableView;

    open spec fn view(&self) -> TableView {
        TableView {
            header: self.header@,
            rows: self.rows.deep_view(),
            widths: self.widths@,
            title: self.title@,
            selected: self.selected,
        }
    }
}

impl DeepView for Table {
    type V = TableView;

    open spec fn deep_view(&self) -> TableView {
        self@
    }
}


/// Something to draw.
#[derive(Debug)]
pub enum Widget {
    Text { paragraph: Paragraph },
    List { table: Table },
}

#[verifier::ext_equal]
pub enum WidgetView {
    Text { paragraph: ParagraphView },
    List { table: TableView },
}

impl View for Widget {
    type V = WidgetView;

    open spec fn view(&self) -> WidgetView {
        match self {
            Widget::Text { paragraph } => WidgetView::Text { paragraph: paragraph@ },
            Widget::List { table } => WidgetView::List { table: table@ },
        }
    }
}

impl DeepView for Widget {
    type V = WidgetView;

    open spec fn deep_view(&self) -> WidgetView {
        self@
    }
}


/// A widget and where it is drawn.
#[derive(Debug)]
pub struct Draw {
    pub area: Area,
    pub widget: Widget,
}

#[verifier::ext_equal]
pub struct DrawView {
    pub area: Area,
    pub widget: WidgetView,
}

impl View for Draw {
    type V = DrawView;

    open spec fn view(&self) -> DrawView {
        DrawView { area: self.area, widget: self.widget@ }
    }
}

impl DeepView for Draw {
    type V = DrawView;

    open spec fn deep_view(&self) -> DrawView {
        self@
    }
}


/// The mark of the selected row.
pub const HIGHLIGHT_SYMBOL: &'static str = "▸ ";

impl Row {
    /// A row without cells.
    pub fn new(style: Style) -> (res: Row)
        ensures
            res@ == (RowView { cells: Seq::empty(), style }),
    {
        let res = Row { cells: Vec::new(), style };
        assert(res.cells.deep_view() =~= Seq::empty());
        res
    }

    /// The row with one more cell.
    pub fn with(self, cell: Line) -> (res: Row)
        ensures
            res@ == (RowView { cells: self@.cells.push(cell@), style: self@.style }),
    {
        let mut cells = self.cells;
        push_viewed(&mut cells, cell);
        Row { cells, style: self.style }
    }
}

fn text_at(area: Area, paragraph: Paragraph) -> (res: Draw)
    ensures
        res@ == (DrawView { area, widget: WidgetView::Text { paragraph: paragraph@ } }),
{
    Draw { area, widget: Widget::Text { paragraph } }
}

fn list_at(area: Area, table: Table) -> (res: Draw)
    ensures
        res@ == (DrawView { area, widget: WidgetView::List { table: table@ } }),
{
    Draw { area, widget: Widget::List { table } }
}

/// One line as a paragraph.
pub open spec fn one_line(line: LineView, alignment: Alignment, border: Border) -> ParagraphView {
    ParagraphView { lines: seq![line], alignment, border }
}

fn paragraph_of(line: Line, alignment: Alignment, border: Border) -> (res: Paragraph)
    ensures
        res@ == one_line(line@, alignment, border),
{
    let mut lines: Vec<Line> = Vec::new();
    assert(lines.deep_view() =~= Seq::empty());
    push_viewed(&mut lines, line);
    assert(lines.deep_view() =~= seq![line@]);
    Paragraph { lines, alignment, border }
}

// ── ASCII Art ───────────────────────────────────────────

pub const LOGO_BIG: [&'static str; 6] = [
    "██████╗  ██████╗ ██████╗ ████████╗██╗  ██╗██╗   ██╗██████╗ ██████╗",
    "██╔══██╗██╔═══██╗██╔══██╗╚══██╔══╝██║ ██╔╝██║   ██║██╔══██╗██╔═══╝",
    "██████╔╝██║   ██║██████╔╝   ██║   █████╔╝ ██║   ██║██████╔╝█████╗ ",
    "██╔═══╝ ██║   ██║██╔══██╗   ██║   ██╔═██╗ ██║   ██║██╔══██╗██╔══╝ ",
    "██║     ╚██████╔╝██║  ██║   ██║   ██║  ██╗╚██████╔╝██████╔╝██████╗",
    "╚═╝      ╚═════╝ ╚═╝  ╚═╝   ╚═╝   ╚═╝  ╚═╝ ╚═════╝ ╚═════╝ ╚═════╝",
];

pub const LOGO_SMALL: &'static str = "█▀█ █▀█ █▀█ ▀█▀ █▄▀ █ █ █▀▄ █▀▀\n█▀▀ █ █ █▀▄  █  █▀▄ █ █ █▀▄ █▀▀\n▀   ▀▀▀ ▀ ▀  ▀  ▀ ▀ ▀▀▀ ▀▀  ▀▀▀";

pub const VERSION: &'static str = "0.1.0";

/// The frames of the spinner.
pub const SPINNER: [&'static str; 10] = ["⠋", "⠙", "⠹", "⠸", "⠼", "⠴", "⠦", "⠧", "⠇", "⠏"];

/// The version as it is shown.
pub open spec fn version_line() -> LineView {
    text_line("v"@ + VERSION@, fg_style(DIM))
}

fn show_version() -> (res: Line)
    ensures
        res@ == version_line(),
{
    Line::of(concat_text("v", VERSION).as_str(), Style::fg(DIM))
}

// ── Splash screen ───────────────────────────────────────

/// How far a progress bar is filled: the number of filled cells, and the percentage.
#[derive(Debug, Clone, Copy, PartialEq, Eq, Structural)]
pub struct Gauge {
    pub filled: usize,
    pub percent: u8,
}

/// The lines of the big logo.
pub open spec fn logo_lines() -> Seq<LineView> {
    Seq::new(6, |i: int| text_line(LOGO_BIG[i]@, bold_style(ACCENT)))
}

/// The big logo with the name of the program and its version.
pub open spec fn splash_logo() -> ParagraphView {
    ParagraphView {
        lines: logo_lines() + seq![
            line(Seq::empty()),
            text_line("Kubernetes Local Development"@, fg_style(DIM)),
            version_line(),
        ],
        alignment: Alignment::Center,
        border: Border::Bare,
    }
}

/// So many times the same character.
pub open spec fn repeated(c: char, n: nat) -> Seq<char> {
    Seq::new(n, |i: int| c)
}

/// The cells of a progress bar in an area of the given width: all but twenty.
pub open spec fn bar_cells(width: int) -> int {
    if width > 20 {
        width - 20
    } else {
        0
    }
}

/// The progress bar: filled cells, empty cells up to its width, and the percentage.
pub open spec fn progress_bar(width: int, gauge: Gauge) -> ParagraphView {
    let empty = if bar_cells(width) > gauge.filled {
        (bar_cells(width) - gauge.filled) as nat
    } else {
        0
    };
    one_line(
        line(
            seq![
                span("  ["@, fg_style(DIM)),
                span(repeated('█', gauge.filled as nat), fg_style(ACCENT)),
                span(repeated('░', empty), fg_style(DIM)),
                span("]"@, fg_style(DIM)),
                span(" "@ + text::digits(gauge.percent as nat) + "%"@, fg_style(FG)),
            ],
        ),
        Alignment::Center,
        Border::Bare,
    )
}

/// The spinner and the message of the splash.
pub open spec fn splash_status(splash: SplashStateView) -> ParagraphView {
    one_line(
        line(
            seq![
                span(SPINNER[splash.spinner_frame as int % 10]@ + " "@, fg_style(YELLOW)),
                span(splash.message, fg_style(FG)),
            ],
        ),
        Alignment::Center,
        Border::Bare,
    )
}

/// How the splash is divided: the logo, the bar and the status, with room around them.
pub open spec fn splash_constraints() -> Seq<Constraint> {
    seq![
        Constraint::Percentage(25),
        Constraint::Length(9),
        Constraint::Length(2),
        Constraint::Length(1),
        Constraint::Length(1),
        Constraint::Length(1),
        Constraint::Percentage(30),
    ]
}

/// The splash in the pieces of a divided screen.
pub open spec fn splash_draws(
    splash: SplashStateView,
    gauge: Gauge,
    pieces: Seq<Area>,
) -> Seq<DrawView> {
    seq![
        DrawView { area: pieces[1], widget: WidgetView::Text { paragraph: splash_logo() } },
        DrawView {
            area: pieces[3],
            widget: WidgetView::Text { paragraph: progress_bar(pieces[3].width as int, gauge) },
        },
        DrawView { area: pieces[5], widget: WidgetView::Text { paragraph: splash_status(splash) } },
    ]
}

/// The draws are the splash in an area.
pub open spec fn splash_drawn(
    area: Area,
    splash: SplashStateView,
    gauge: Gauge,
    draws: Seq<DrawView>,
) -> bool {
    exists|pieces: Seq<Area>| #[trigger]
        divided(Direction::Vertical, splash_constraints(), area, pieces) && draws == splash_draws(
            splash,
            gauge,
            pieces,
        )
}

/// The cells of a progress bar in an area of the given width.
pub fn bar_width(width: u16) -> (res: usize)
    ensures
        res == bar_cells(width as int),
{
    if width > 20 {
        (width - 20) as usize
    } else {
        0
    }
}

fn repeat_char(c: char, n: usize) -> (res: String)
    ensures
        res@ == repeated(c, n as nat),
{
    let mut res = String::new();
    let mut i: usize = 0;
    assert(res@ =~= repeated(c, 0));
    while i < n
        invariant
            i <= n,
            res@ == repeated(c, i as nat),
        decreases n - i,
    {
        res.push(c);
        i += 1;
        assert(res@ =~= repeated(c, i as nat));
    }
    res
}

fn show_logo() -> (res: Paragraph)
    ensures
        res@ == splash_logo(),
{
    let mut lines: Vec<Line> = Vec::new();
    let mut i: usize = 0;
    assert(lines.deep_view() =~= logo_lines().take(0));
    while i < 6
        invariant
            i <= 6,
            lines.deep_view() == logo_lines().take(i as int),
        decreases 6 - i,
    {
        push_viewed(&mut lines, Line::of(LOGO_BIG[i], Style::bold(ACCENT)));
        assert(logo_lines().take(i as int).push(logo_lines()[i as int]) =~= logo_lines().take(i + 1));
        i += 1;
    }
    push_viewed(&mut lines, Line::new());
    push_viewed(&mut lines, Line::of("Kubernetes Local Development", Style::fg(DIM)));
    push_viewed(&mut lines, show_version());
    assert(lines.deep_view() =~= splash_logo().lines);
    Paragraph { lines, alignment: Alignment::Center, border: Border::Bare }
}

fn show_progress(width: u16, gauge: Gauge) -> (res: Paragraph)
    ensures
        res@ == progress_bar(width as int, gauge),
{
    let cells: usize = bar_width(width);
    let empty: usize = if cells > gauge.filled {
        cells - gauge.filled
    } else {
        0
    };
    let mut percent = " ".to_string();
    push_digits(&mut percent, gauge.percent as u64);
    percent.append("%");
    let bar = Line::new().with("  [", Style::fg(DIM)).with(
        repeat_char('█', gauge.filled).as_str(),
        Style::fg(ACCENT),
    ).with(repeat_char('░', empty).as_str(), Style::fg(DIM)).with("]", Style::fg(DIM)).with(
        percent.as_str(),
        Style::fg(FG),
    );
    let res = paragraph_of(bar, Alignment::Center, Border::Bare);
    assert(res@ =~~= progress_bar(width as int, gauge));
    res
}

fn show_status(splash: &SplashState) -> (res: Paragraph)
    ensures
        res@ == splash_status(splash@),
{
    let spinner = concat_text(SPINNER[splash.spinner_frame % 10], " ");
    let status = Line::new().with(spinner.as_str(), Style::fg(YELLOW)).with(
        splash.message.as_str(),
        Style::fg(FG),
    );
    let res = paragraph_of(status, Alignment::Center, Border::Bare);
    assert(res@ =~~= splash_status(splash@));
    res
}

/// Startup splash — logo + progress bar while loading contexts.
pub fn draw_splash(area: Area, app: &App, gauge: Gauge) -> (res: Vec<Draw>)
    ensures
        splash_drawn(area, app@.splash, gauge, res.deep_view()),
{
    let constraints = vec![
        Constraint::Percentage(25),
        Constraint::Length(9),
        Constraint::Length(2),
        Constraint::Length(1),
        Constraint::Length(1),
        Constraint::Length(1),
        Constraint::Percentage(30),
    ];
    assert(constraints@ =~= splash_constraints());
    let pieces = split_area(Direction::Vertical, &constraints, area);
    place_splash(&pieces, app, gauge)
}

/// Draws the splash in the seven pieces of a divided screen.
pub fn place_splash(pieces: &Vec<Area>, app: &App, gauge: Gauge) -> (res: Vec<Draw>)
    requires
        pieces@.len() == 7,
    ensures
        res.deep_view() == splash_draws(app@.splash, gauge, pieces@),
{
    let mut draws: Vec<Draw> = Vec::new();
    assert(draws.deep_view() =~= Seq::empty());
    push_viewed(&mut draws, text_at(pieces[1], show_logo()));
    push_viewed(&mut draws, text_at(pieces[3], show_progress(pieces[3].width, gauge)));
    push_viewed(&mut draws, text_at(pieces[5], show_status(&app.splash)));
    assert(draws.deep_view() =~= splash_draws(app@.splash, gauge, pieces@));
    draws
}

/// Connecting splash — logo + progress bar + spinner status.
pub fn draw_connecting_splash(area: Area, app: &App, gauge: Gauge) -> (res: Vec<Draw>)
    ensures
        splash_drawn(area, app@.splash, gauge, res.deep_view()),
{
    draw_splash(area, app, gauge)
}

// ── Header with small logo ──────────────────────────────

/// How the header is divided: what is shown on the left, the logo on the right.
pub open spec fn header_constraints() -> Seq<Constraint> {
    seq![Constraint::Min(0), Constraint::Length(36)]
}

/// What the header says about the screen.
pub open spec fn header_lines(app: AppView) -> Seq<LineView> {
    match app.screen {
        Screen::Splash => Seq::empty(),
        Screen::Contexts => seq![
            line(
                seq![
                    span(" ⎈ "@, bold_style(ACCENT)),
                    span("Cluster Contexts"@, bold_style(FG)),
                ],
            ),
            text_line(
                "   "@ + text::digits(app.contexts.len()) + " contexts found"@,
                fg_style(DIM),
            ),
        ],
        Screen::Services => seq![
            line(
                seq![
                    span(" ⎈ "@, bold_style(GREEN)),
                    span(
                        match app.connected_context {
                            Some(name) => name,
                            None => "?"@,
                        },
                        bold_style(GREEN),
                    ),
                    span("  "@ + text::digits(app.services.len()) + " services"@, fg_style(DIM)),
                ],
            ),
            text_line(
                "   "@ + text::digits(app.service_entries.len())
                    + " proxied  ·  use <svc>.<ns> in browser"@,
                fg_style(DIM),
            ),
        ],
    }
}

/// The small logo with the version under it.
pub open spec fn small_logo_lines() -> Seq<LineView> {
    text::lines(LOGO_SMALL@).map_values(|l: Seq<char>| text_line(l, bold_style(ACCENT))).push(
        version_line(),
    )
}

/// The header in its two columns.
pub open spec fn header_draws(app: AppView, columns: Seq<Area>) -> Seq<DrawView> {
    seq![
        DrawView {
            area: columns[0],
            widget: WidgetView::Text {
                paragraph: ParagraphView {
                    lines: header_lines(app),
                    alignment: Alignment::Left,
                    border: Border::Bottom,
                },
            },
        },
        DrawView {
            area: columns[1],
            widget: WidgetView::Text {
                paragraph: ParagraphView {
                    lines: small_logo_lines(),
                    alignment: Alignment::Right,
                    border: Border::Bottom,
                },
            },
        },
    ]
}

fn counted(before: &str, n: usize, after: &str) -> (res: String)
    ensures
        res@ == before@ + text::digits(n as nat) + after@,
{
    let mut res = before.to_string();
    push_digits(&mut res, n as u64);
    res.append(after);
    res
}

fn show_header_lines(app: &App) -> (res: Vec<Line>)
    ensures
        res.deep_view() == header_lines(app@),
{
    let mut lines: Vec<Line> = Vec::new();
    assert(lines.deep_view() =~= Seq::empty());
    match app.screen {
        Screen::Splash => {},
        Screen::Contexts => {
            let title = Line::new().with(" ⎈ ", Style::bold(ACCENT)).with(
                "Cluster Contexts",
                Style::bold(FG),
            );
            push_viewed(&mut lines, title);
            let found = counted("   ", app.contexts.len(), " contexts found");
            push_viewed(&mut lines, Line::of(found.as_str(), Style::fg(DIM)));
            assert(app.contexts@.len() == app@.contexts.len());
            assert(lines.deep_view() =~~= header_lines(app@));
        },
        Screen::Services => {
            let ctx = match &app.connected_context {
                Some(name) => name.as_str(),
                None => "?",
            };
            let listed = counted("  ", app.services.len(), " services");
            let title = Line::new().with(" ⎈ ", Style::bold(GREEN)).with(
                ctx,
                Style::bold(GREEN),
            ).with(listed.as_str(), Style::fg(DIM));
            push_viewed(&mut lines, title);
            let proxied = counted(
                "   ",
                app.service_entries.len(),
                " proxied  ·  use <svc>.<ns> in browser",
            );
            push_viewed(&mut lines, Line::of(proxied.as_str(), Style::fg(DIM)));
            assert(app.services@.len() == app@.services.len());
            assert(app.service_entries@.len() == app@.service_entries.len());
            assert(lines.deep_view() =~~= header_lines(app@));
        },
    }
    lines
}

fn show_small_logo() -> (res: Vec<Line>)
    ensures
        res.deep_view() == small_logo_lines(),
{
    let art = lines_of(LOGO_SMALL);
    let ghost all = text::lines(LOGO_SMALL@).map_values(
        |l: Seq<char>| text_line(l, bold_style(ACCENT)),
    );
    let mut lines: Vec<Line> = Vec::new();
    let mut i: usize = 0;
    assert(lines.deep_view() =~= all.take(0));
    while i < art.len()
        invariant
            i <= art@.len(),
            art.deep_view() == text::lines(LOGO_SMALL@),
            all == text::lines(LOGO_SMALL@).map_values(
                |l: Seq<char>| text_line(l, bold_style(ACCENT)),
            ),
            lines.deep_view() == all.take(i as int),
        decreases art@.len() - i,
    {
        push_viewed(&mut lines, Line::of(art[i].as_str(), Style::bold(ACCENT)));
        assert(art.deep_view()[i as int] == art@[i as int]@);
        assert(all.take(i as int).push(all[i as int]) =~= all.take(i + 1));
        i += 1;
    }
    assert(all.take(i as int) =~= all);
    push_viewed(&mut lines, show_version());
    lines
}

/// The header: what the screen is about, and the logo.
pub fn draw_header(area: Area, app: &App) -> (res: Vec<Draw>)
    ensures
        exists|columns: Seq<Area>| #[trigger]
            divided(Direction::Horizontal, header_constraints(), area, columns) && res.deep_view()
                == header_draws(app@, columns),
{
    let constraints = vec![Constraint::Min(0), Constraint::Length(36)];
    assert(constraints@ =~= header_constraints());
    let columns = split_area(Direction::Horizontal, &constraints, area);
    let mut draws: Vec<Draw> = Vec::new();
    assert(draws.deep_view() =~= Seq::empty());
    let info = Paragraph {
        lines: show_header_lines(app),
        alignment: Alignment::Left,
        border: Border::Bottom,
    };
    push_viewed(&mut draws, text_at(columns[0], info));
    let logo = Paragraph {
        lines: show_small_logo(),
        alignment: Alignment::Right,
        border: Border::Bottom,
    };
    push_viewed(&mut draws, text_at(columns[1], logo));
    assert(draws.deep_view() =~= header_draws(app@, columns@));
    draws
}

// ── Context list ────────────────────────────────────────

/// A table header of plain titles.
pub open spec fn header_row(titles: Seq<Seq<char>>) -> RowView {
    RowView {
        cells: titles.map_values(|title: Seq<char>| text_line(title, plain_style())),
        style: bold_style(header_fg()),
    }
}

/// The style of a row.
pub open spec fn row_style(selected: bool) -> Style {
    if selected {
        Style { fg: Some(FG), bg: Some(selected_bg()), bold: false }
    } else {
        fg_style(FG)
    }
}

fn style_of_row(selected: bool) -> (res: Style)
    ensures
        res == row_style(selected),
{
    if selected {
        Style { fg: Some(FG), bg: Some(selected_bg()), bold: false }
    } else {
        Style::fg(FG)
    }
}

/// The row of a context; a dot marks the active one.
pub open spec fn context_row(ctx: KubeContextView, selected: bool) -> RowView {
    RowView {
        cells: seq![
            line(
                seq![
                    span(
                        (if ctx.is_active {
                            "●"@
                        } else {
                            " "@
                        }) + " "@,
                        fg_style(
                            if ctx.is_active {
                                GREEN
                            } else {
                                DIM
                            },
                        ),
                    ),
                    span(ctx.name, bold_style(FG)),
                ],
            ),
            text_line(ctx.cluster, fg_style(DIM)),
            text_line(ctx.namespace, fg_style(ACCENT)),
            text_line(ctx.user, fg_style(DIM)),
        ],
        style: row_style(selected),
    }
}

/// The rows of the context list.
pub open spec fn context_list(app: AppView) -> Seq<RowView> {
    Seq::new(
        app.contexts.len(),
        |i: int| context_row(app.contexts[i].ctx, i == app.ctx_selected),
    )
}

/// The context list; where there are none, a hint.
pub open spec fn contexts_widget(app: AppView) -> WidgetView {
    if app.contexts.len() == 0 {
        WidgetView::Text {
            paragraph: ParagraphView {
                lines: seq![
                    line(Seq::empty()),
                    styled_line("  No Kubernetes contexts found."@, fg_style(DIM)),
                    styled_line("  Check ~/.kube/config"@, fg_style(DIM)),
                ],
                alignment: Alignment::Left,
                border: Border::Bare,
            },
        }
    } else {
        WidgetView::List {
            table: TableView {
                header: header_row(seq!["  Context"@, "Cluster"@, "Namespace"@, "User"@]),
                rows: context_list(app),
                widths: seq![28u16, 24u16, 14u16, 14u16],
                title: span(" Contexts "@, bold_style(FG)),
                selected: app.ctx_selected,
            },
        }
    }
}

fn show_context(ctx: &ContextRow, selected: bool) -> (res: Row)
    ensures
        res@ == context_row(ctx@.ctx, selected),
{
    let ctx = &ctx.ctx;
    let mark = if ctx.is_active {
        "●"
    } else {
        " "
    };
    let color = if ctx.is_active {
        GREEN
    } else {
        DIM
    };
    let res = Row::new(style_of_row(selected)).with(
        Line::new().with(concat_text(mark, " ").as_str(), Style::fg(color)).with(
            ctx.name.as_str(),
            Style::bold(FG),
        ),
    ).with(Line::of(ctx.cluster.as_str(), Style::fg(DIM))).with(
        Line::of(ctx.namespace.as_str(), Style::fg(ACCENT)),
    ).with(Line::of(ctx.user.as_str(), Style::fg(DIM)));
    assert(res@ =~~= context_row(ctx@, selected));
    res
}

/// The context list.
pub fn draw_contexts(area: Area, app: &App) -> (res: Draw)
    ensures
        res@ == (DrawView { area, widget: contexts_widget(app@) }),
{
    assert(app.contexts@.len() == app@.contexts.len());
    if app.contexts.len() == 0 {
        let mut lines: Vec<Line> = Vec::new();
        assert(lines.deep_view() =~= Seq::empty());
        push_viewed(&mut lines, Line::new());
        push_viewed(&mut lines, Line::styled("  No Kubernetes contexts found.", Style::fg(DIM)));
        push_viewed(&mut lines, Line::styled("  Check ~/.kube/config", Style::fg(DIM)));
        let paragraph = Paragraph { lines, alignment: Alignment::Left, border: Border::Bare };
        let res = text_at(area, paragraph);
        assert(res@ =~~= (DrawView { area, widget: contexts_widget(app@) }));
        return res;
    }
    let header = Row::new(Style::bold(header_fg())).with(Line::of("  Context", Style::plain())).with(
        Line::of("Cluster", Style::plain()),
    ).with(Line::of("Namespace", Style::plain())).with(Line::of("User", Style::plain()));
    assert(header@ =~~= header_row(seq!["  Context"@, "Cluster"@, "Namespace"@, "User"@]));
    let mut rows: Vec<Row> = Vec::new();
    let ghost all = context_list(app@);
    let mut i: usize = 0;
    assert(rows.deep_view() =~= all.take(0));
    while i < app.contexts.len()
        invariant
            i <= app.contexts@.len(),
            all == context_list(app@),
            rows.deep_view() == all.take(i as int),
        decreases app.contexts@.len() - i,
    {
        push_viewed(&mut rows, show_context(&app.contexts[i], i == app.ctx_selected));
        assert(app@.contexts[i as int] == app.contexts@[i as int]@);
        assert(all.take(i as int).push(all[i as int]) =~= all.take(i + 1));
        i += 1;
    }
    assert(all.take(i as int) =~= all);
    let table = Table {
        header,
        rows,
        widths: vec![28u16, 24u16, 14u16, 14u16],
        title: Span { text: " Contexts ".to_string(), style: Style::bold(FG) },
        selected: app.ctx_selected,
    };
    let res = list_at(area, table);
    assert(res@ =~= (DrawView { area, widget: contexts_widget(app@) }));
    res
}

// ── Service list ────────────────────────────────────────

/// The color of a service type.
pub open spec fn type_color(service_type: Seq<char>) -> Color {
    if service_type == "LoadBalancer"@ {
        GREEN
    } else if service_type == "NodePort"@ {
        YELLOW
    } else {
        DIM
    }
}

/// Where a service stands: routed, without an address of its own, or not routed yet.
pub open spec fn service_status(svc: KubeServiceView, routed: bool) -> SpanView {
    if routed {
        span("● routed"@, fg_style(GREEN))
    } else if svc.cluster_ip == "None"@ || svc.cluster_ip == "-"@ {
        span("○ headless"@, fg_style(DIM))
    } else {
        span("○ pending"@, fg_style(DIM))
    }
}

/// The row of a service.
pub open spec fn service_row(svc: KubeServiceView, routed: bool, selected: bool) -> RowView {
    RowView {
        cells: seq![
            line(seq![span("  "@, plain_style()), span(svc.name, bold_style(FG))]),
            text_line(svc.namespace, fg_style(ACCENT)),
            text_line(svc.service_type, fg_style(type_color(svc.service_type))),
            text_line(services::ports_text(svc.ports), fg_style(DIM)),
            text_line(
                service_map::short_name(svc.name, svc.namespace),
                fg_style(
                    if routed {
                        ACCENT
                    } else {
                        DIM
                    },
                ),
            ),
            line(seq![service_status(svc, routed)]),
        ],
        style: row_style(selected),
    }
}

/// The rows of the service list. A service is routed where the service map has an entry for it.
pub open spec fn service_list(app: AppView) -> Seq<RowView> {
    Seq::new(
        app.services.len(),
        |i: int|
            service_row(
                app.services[i],
                app::find_entry(
                    app.service_entries,
                    app.services[i].name,
                    app.services[i].namespace,
                ) is Some,
                i == app.svc_selected,
            ),
    )
}

/// The service list; where there are none, a hint.
pub open spec fn services_widget(app: AppView) -> WidgetView {
    if app.services.len() == 0 {
        WidgetView::Text {
            paragraph: ParagraphView {
                lines: seq![
                    line(Seq::empty()),
                    styled_line("  No services found in this cluster."@, fg_style(DIM)),
                ],
                alignment: Alignment::Left,
                border: Border::Bare,
            },
        }
    } else {
        WidgetView::List {
            table: TableView {
                header: header_row(
                    seq!["  Service"@, "Namespace"@, "Type"@, "Ports"@, "DNS"@, "Status"@],
                ),
                rows: service_list(app),
                widths: seq![20u16, 14u16, 14u16, 14u16, 22u16, 12u16],
                title: span(" Services "@, bold_style(FG)),
                selected: app.svc_selected,
            },
        }
    }
}

fn color_of_type(service_type: &str) -> (res: Color)
    ensures
        res == type_color(service_type@),
{
    if same_text(service_type, "LoadBalancer") {
        GREEN
    } else if same_text(service_type, "NodePort") {
        YELLOW
    } else {
        DIM
    }
}

fn status_of_service(svc: &KubeService, routed: bool) -> (res: Span)
    ensures
        res@ == service_status(svc@, routed),
{
    if routed {
        Span { text: "● routed".to_string(), style: Style::fg(GREEN) }
    } else if same_text(svc.cluster_ip.as_str(), "None") || same_text(svc.cluster_ip.as_str(), "-") {
        Span { text: "○ headless".to_string(), style: Style::fg(DIM) }
    } else {
        Span { text: "○ pending".to_string(), style: Style::fg(DIM) }
    }
}

fn show_service(svc: &KubeService, routed: bool, selected: bool) -> (res: Row)
    ensures
        res@ == service_row(svc@, routed, selected),
{
    let mut dns_name = concat_text(svc.name.as_str(), ".");
    dns_name.append(svc.namespace.as_str());
    let dns_color = if routed {
        ACCENT
    } else {
        DIM
    };
    let res = Row::new(style_of_row(selected)).with(
        Line::new().with("  ", Style::plain()).with(svc.name.as_str(), Style::bold(FG)),
    ).with(Line::of(svc.namespace.as_str(), Style::fg(ACCENT))).with(
        Line::of(
            svc.service_type.as_str(),
            Style::fg(color_of_type(svc.service_type.as_str())),
        ),
    ).with(Line::of(svc.ports_display().as_str(), Style::fg(DIM))).with(
        Line::of(dns_name.as_str(), Style::fg(dns_color)),
    ).with(Line::new().push(status_of_service(svc, routed)));
    assert(res@ =~~= service_row(svc@, routed, selected));
    res
}

/// The service list.
pub fn draw_services(area: Area, app: &App) -> (res: Draw)
    ensures
        res@ == (DrawView { area, widget: services_widget(app@) }),
{
    assert(app.services@.len() == app@.services.len());
    if app.services.len() == 0 {
        let mut lines: Vec<Line> = Vec::new();
        assert(lines.deep_view() =~= Seq::empty());
        push_viewed(&mut lines, Line::new());
        push_viewed(
            &mut lines,
            Line::styled("  No services found in this cluster.", Style::fg(DIM)),
        );
        let paragraph = Paragraph { lines, alignment: Alignment::Left, border: Border::Bare };
        let res = text_at(area, paragraph);
        assert(res@ =~~= (DrawView { area, widget: services_widget(app@) }));
        return res;
    }
    let header = Row::new(Style::bold(header_fg())).with(Line::of("  Service", Style::plain())).with(
        Line::of("Namespace", Style::plain()),
    ).with(Line::of("Type", Style::plain())).with(Line::of("Ports", Style::plain())).with(
        Line::of("DNS", Style::plain()),
    ).with(Line::of("Status", Style::plain()));
    assert(header@ =~~= header_row(
        seq!["  Service"@, "Namespace"@, "Type"@, "Ports"@, "DNS"@, "Status"@],
    ));
    let mut rows: Vec<Row> = Vec::new();
    let ghost all = service_list(app@);
    let mut i: usize = 0;
    assert(rows.deep_view() =~= all.take(0));
    while i < app.services.len()
        invariant
            i <= app.services@.len(),
            all == service_list(app@),
            rows.deep_view() == all.take(i as int),
        decreases app.services@.len() - i,
    {
        let svc = &app.services[i];
        let routed = position_of_entry(
            &app.service_entries,
            svc.name.as_str(),
            svc.namespace.as_str(),
        ).is_some();
        push_viewed(&mut rows, show_service(svc, routed, i == app.svc_selected));
        assert(app@.services[i as int] == app.services@[i as int]@);
        assert(all.take(i as int).push(all[i as int]) =~= all.take(i + 1));
        i += 1;
    }
    assert(all.take(i as int) =~= all);
    let table = Table {
        header,
        rows,
        widths: vec![20u16, 14u16, 14u16, 14u16, 22u16, 12u16],
        title: Span { text: " Services ".to_string(), style: Style::bold(FG) },
        selected: app.svc_selected,
    };
    let res = list_at(area, table);
    assert(res@ =~= (DrawView { area, widget: services_widget(app@) }));
    res
}

// ── Status bar ──────────────────────────────────────────

/// A key and what it does.
pub open spec fn key_text(key: Seq<char>, label: Seq<char>) -> SpanView {
    span(" "@ + key + " "@ + label, fg_style(DIM))
}

/// The room between two keys.
pub open spec fn gap() -> SpanView {
    span("  "@, plain_style())
}

/// The keys of a screen.
pub open spec fn help(screen: Screen) -> Seq<SpanView> {
    match screen {
        Screen::Splash => Seq::empty(),
        Screen::Contexts => seq![
            key_text("↑↓"@, "navigate"@),
            gap(),
            key_text("Enter"@, "connect"@),
            gap(),
            key_text("r"@, "refresh"@),
            gap(),
            key_text("q"@, "quit"@),
        ],
        Screen::Services => seq![
            key_text("↑↓"@, "navigate"@),
            gap(),
            key_text("Enter/o"@, "open browser"@),
            gap(),
            key_text("y"@, "copy url"@),
            gap(),
            key_text("r"@, "refresh"@),
            gap(),
            key_text("Esc"@, "disconnect"@),
            gap(),
            key_text("q"@, "quit"@),
        ],
    }
}

/// The status bar: the toast, red where it is an error; without one, the keys of the screen.
pub open spec fn status_line(screen: Screen, toast: Option<ToastView>) -> LineView {
    match toast {
        Some(t) => text_line(
            "  "@ + t.message,
            fg_style(
                if t.is_error {
                    RED
                } else {
                    GREEN
                },
            ),
        ),
        None => line(seq![span("  "@, plain_style())] + help(screen)),
    }
}

/// The status bar in an area.
pub open spec fn status_draw(app: AppView, area: Area) -> DrawView {
    DrawView {
        area,
        widget: WidgetView::Text {
            paragraph: one_line(
                status_line(app.screen, app.toast),
                Alignment::Left,
                Border::Top,
            ),
        },
    }
}

pub fn key_span(key: &str, label: &str) -> (res: Span)
    ensures
        res@ == key_text(key@, label@),
{
    let mut text = concat_text(" ", key);
    text.append(" ");
    text.append(label);
    Span { text, style: Style::fg(DIM) }
}

pub fn sep() -> (res: Span)
    ensures
        res@ == gap(),
{
    Span { text: "  ".to_string(), style: Style::plain() }
}

/// The status bar.
pub fn draw_status_bar(area: Area, app: &App) -> (res: Draw)
    ensures
        res@ == status_draw(app@, area),
{
    let content = match &app.toast {
        Some(toast) => {
            let color = if toast.is_error {
                RED
            } else {
                GREEN
            };
            Line::of(concat_text("  ", toast.message.as_str()).as_str(), Style::fg(color))
        },
        None => {
            let keys = Line::new().with("  ", Style::plain());
            match app.screen {
                Screen::Splash => keys,
                Screen::Contexts => keys.push(key_span("↑↓", "navigate")).push(sep()).push(
                    key_span("Enter", "connect"),
                ).push(sep()).push(key_span("r", "refresh")).push(sep()).push(
                    key_span("q", "quit"),
                ),
                Screen::Services => keys.push(key_span("↑↓", "navigate")).push(sep()).push(
                    key_span("Enter/o", "open browser"),
                ).push(sep()).push(key_span("y", "copy url")).push(sep()).push(
                    key_span("r", "refresh"),
                ).push(sep()).push(key_span("Esc", "disconnect")).push(sep()).push(
                    key_span("q", "quit"),
                ),
            }
        },
    };
    assert(content@ =~~= status_line(app@.screen, app@.toast));
    text_at(area, paragraph_of(content, Alignment::Left, Border::Top))
}

// ── Main layout (header + content + footer) ─────────────

/// How the screen is divided: header, content and footer.
pub open spec fn main_constraints() -> Seq<Constraint> {
    seq![Constraint::Length(5), Constraint::Min(0), Constraint::Length(3)]
}

/// What stands between header and footer.
pub open spec fn content_widget(app: AppView) -> WidgetView {
    match app.screen {
        Screen::Services => services_widget(app),
        _ => contexts_widget(app),
    }
}

/// The main layout in the pieces of a divided screen.
pub open spec fn main_draws(app: AppView, pieces: Seq<Area>, columns: Seq<Area>) -> Seq<DrawView> {
    header_draws(app, columns) + seq![
        DrawView { area: pieces[1], widget: content_widget(app) },
        status_draw(app, pieces[2]),
    ]
}

/// The draws are the main layout in an area.
pub open spec fn main_drawn(area: Area, app: AppView, draws: Seq<DrawView>) -> bool {
    exists|pieces: Seq<Area>, columns: Seq<Area>|
        #![trigger main_draws(app, pieces, columns)]
        divided(Direction::Vertical, main_constraints(), area, pieces) && divided(
            Direction::Horizontal,
            header_constraints(),
            pieces[0],
            columns,
        ) && draws == main_draws(app, pieces, columns)
}

/// The main layout: header, content and footer.
pub fn draw_main_layout(area: Area, app: &App) -> (res: Vec<Draw>)
    ensures
        main_drawn(area, app@, res.deep_view()),
{
    let constraints = vec![Constraint::Length(5), Constraint::Min(0), Constraint::Length(3)];
    assert(constraints@ =~= main_constraints());
    let pieces = split_area(Direction::Vertical, &constraints, area);
    let mut draws = draw_header(pieces[0], app);
    let ghost columns = choose|columns: Seq<Area>| #[trigger]
        divided(Direction::Horizontal, header_constraints(), pieces@[0], columns)
            && draws.deep_view() == header_draws(app@, columns);
    let content = match app.screen {
        Screen::Services => draw_services(pieces[1], app),
        _ => draw_contexts(pieces[1], app),
    };
    push_viewed(&mut draws, content);
    push_viewed(&mut draws, draw_status_bar(pieces[2], app));
    assert(draws.deep_view() =~= main_draws(app@, pieces@, columns));
    draws
}

// ── Main render ─────────────────────────────────────────

/// The draws are what the state shows on a screen.
pub open spec fn rendered(area: Area, app: AppView, gauge: Gauge, draws: Seq<DrawView>) -> bool {
    if app.screen == Screen::Splash || (app.screen == Screen::Contexts && app.mode
        == Mode::Connecting) {
        splash_drawn(area, app.splash, gauge, draws)
    } else {
        main_drawn(area, app, draws)
    }
}

/// Everything that the state shows on a screen, in the order in which it is drawn. The gauge says
/// how far the bar of the splash is filled.
pub fn render(area: Area, app: &App, gauge: Gauge) -> (res: Vec<Draw>)
    ensures
        rendered(area, app@, gauge, res.deep_view()),
{
    match app.screen {
        Screen::Splash => draw_splash(area, app, gauge),
        Screen::Contexts => {
            if app.mode == Mode::Connecting {
                draw_connecting_splash(area, app, gauge)
            } else {
                draw_main_layout(area, app)
            }
        },
        Screen::Services => draw_main_layout(area, app),
    }
}

// ── Laws ────────────────────────────────────────────────

/// The inner area lies inside the outer one.
pub open spec fn inside(outer: Area, inner: Area) -> bool {
    &&& outer.x <= inner.x
    &&& outer.y <= inner.y
    &&& inner.x + inner.width <= outer.x + outer.width
    &&& inner.y + inner.height <= outer.y + outer.height
}

/// Nothing is drawn outside of the screen.
pub proof fn law_draws_inside_screen(
    area: Area,
    app: AppView,
    gauge: Gauge,
    draws: Seq<DrawView>,
    i: int,
)
    requires
        rendered(area, app, gauge, draws),
        0 <= i < draws.len(),
    ensures
        inside(area, draws[i].area),
{
    if splash_drawn(area, app.splash, gauge, draws) {
        let pieces = choose|pieces: Seq<Area>| #[trigger]
            divided(Direction::Vertical, splash_constraints(), area, pieces) && draws
                == splash_draws(app.splash, gauge, pieces);
        assert(piece_inside(Direction::Vertical, area, pieces[1]));
        assert(piece_inside(Direction::Vertical, area, pieces[3]));
        assert(piece_inside(Direction::Vertical, area, pieces[5]));
    } else {
        let (pieces, columns) = choose|pieces: Seq<Area>, columns: Seq<Area>|
            #![trigger main_draws(app, pieces, columns)]
            divided(Direction::Vertical, main_constraints(), area, pieces) && divided(
                Direction::Horizontal,
                header_constraints(),
                pieces[0],
                columns,
            ) && draws == main_draws(app, pieces, columns);
        assert(piece_inside(Direction::Vertical, area, pieces[0]));
        assert(piece_inside(Direction::Vertical, area, pieces[1]));
        assert(piece_inside(Direction::Vertical, area, pieces[2]));
        assert(piece_inside(Direction::Horizontal, pieces[0], columns[0]));
        assert(piece_inside(Direction::Horizontal, pieces[0], columns[1]));
    }
}

/// On a screen with room for them, the header takes the first five rows, the status bar the last
/// three, and the list everything between; the logo takes the last thirty-six columns of the header.
pub proof fn law_main_layout_fills_screen(area: Area, app: AppView, draws: Seq<DrawView>)
    requires
        main_drawn(area, app, draws),
        area.height >= 8,
        area.width >= 36,
        area.x + area.width <= u16::MAX,
        area.y + area.height <= u16::MAX,
    ensures
        draws.len() == 4,
        draws[0].area == (Area { width: (area.width - 36) as u16, height: 5, ..area }),
        draws[1].area == (Area {
            x: (area.x + area.width - 36) as u16,
            y: area.y,
            width: 36,
            height: 5,
        }),
        draws[2].area == (Area {
            y: (area.y + 5) as u16,
            height: (area.height - 8) as u16,
            ..area
        }),
        draws[3].area == (Area {
            y: (area.y + area.height - 3) as u16,
            height: 3,
            ..area
        }),
{
    let (pieces, columns) = choose|pieces: Seq<Area>, columns: Seq<Area>|
        #![trigger main_draws(app, pieces, columns)]
        divided(Direction::Vertical, main_constraints(), area, pieces) && divided(
            Direction::Horizontal,
            header_constraints(),
            pieces[0],
            columns,
        ) && draws == main_draws(app, pieces, columns);
    let cs = main_constraints();
    let hs = header_constraints();
    assert(cs.take(0) =~= Seq::empty());
    lemma_total_next(cs, 0, area.height as int);
    lemma_total_next(cs, 1, area.height as int);
    lemma_total_next(cs, 2, area.height as int);
    assert(cs.take(3) =~= cs);
    assert(takes_rest(cs, 1));
    assert(piece_inside(Direction::Vertical, area, pieces[0]));
    assert(piece_inside(Direction::Vertical, area, pieces[1]));
    assert(piece_inside(Direction::Vertical, area, pieces[2]));
    assert(hs.take(0) =~= Seq::empty());
    lemma_total_next(hs, 0, area.width as int);
    lemma_total_next(hs, 1, area.width as int);
    assert(hs.take(2) =~= hs);
    assert(takes_rest(hs, 0));
    assert(piece_inside(Direction::Horizontal, pieces[0], columns[0]));
    assert(piece_inside(Direction::Horizontal, pieces[0], columns[1]));
}

proof fn lemma_total_next(cs: Seq<Constraint>, i: int, extent: int)
    requires
        0 <= i < cs.len(),
    ensures
        total_asked(cs.take(i + 1), extent) == total_asked(cs.take(i), extent) + asked(
            cs[i],
            extent,
        ),
{
    assert(cs.take(i + 1).drop_last() =~= cs.take(i));
}

/// From twenty rows on the splash begins a quarter of the way down: nine rows of logo, two rows down
/// the progress bar, and one more row down the status.
pub proof fn law_splash_layout(
    area: Area,
    splash: SplashStateView,
    gauge: Gauge,
    draws: Seq<DrawView>,
)
    requires
        splash_drawn(area, splash, gauge, draws),
        area.height >= 20,
        area.y + area.height <= u16::MAX,
    ensures
        ({
            let top = area.y + cells(25 * area.height);
            &&& draws.len() == 3
            &&& draws[0].area == (Area { y: top as u16, height: 9, ..area })
            &&& draws[1].area == (Area { y: (top + 11) as u16, height: 1, ..area })
            &&& draws[2].area == (Area { y: (top + 13) as u16, height: 1, ..area })
        }),
{
    let pieces = choose|pieces: Seq<Area>| #[trigger]
        divided(Direction::Vertical, splash_constraints(), area, pieces) && draws == splash_draws(
            splash,
            gauge,
            pieces,
        );
    let cs = splash_constraints();
    let size = area.height as int;
    lemma_splash_asks(size);
    lemma_splash_lengths();
    lemma_splash_row(area, pieces);
    assert(piece_inside(Direction::Vertical, area, pieces[1]));
    assert(piece_inside(Direction::Vertical, area, pieces[3]));
    assert(piece_inside(Direction::Vertical, area, pieces[5]));
    if size >= 32 {
        assert(takes_rest(cs, 7));
        assert(packed(Direction::Vertical, cs, 7, area, pieces));
        assert(cs.take(0) =~= Seq::empty());
        lemma_total_next(cs, 0, size);
        assert(extent(Direction::Vertical, pieces[0]) == cells(25 * size));
    } else {
        assert(framed(cs));
        assert(front_goes_first(Direction::Vertical, cs, area, pieces));
    }
}

/// From fourteen rows on the splash's fixed lengths are kept, one behind the other.
proof fn lemma_splash_row(area: Area, pieces: Seq<Area>)
    requires
        divided(Direction::Vertical, splash_constraints(), area, pieces),
        area.height >= 14,
        area.y + area.height <= u16::MAX,
    ensures
        pieces.len() == 7,
        pieces[1].y == area.y + pieces[0].height,
        pieces[1].height == 9,
        pieces[3].y == pieces[1].y + 11,
        pieces[3].height == 1,
        pieces[5].y == pieces[1].y + 13,
        pieces[5].height == 1,
        pieces[6].y == pieces[1].y + 14,
{
    let cs = splash_constraints();
    lemma_splash_lengths();
    assert(in_a_row(Direction::Vertical, area, pieces));
    assert(lengths_kept(Direction::Vertical, cs, pieces));
    assert(start(Direction::Vertical, pieces[0]) == area.y);
    assert(extent(Direction::Vertical, pieces[1]) == 9);
    assert(extent(Direction::Vertical, pieces[2]) == 2);
    assert(extent(Direction::Vertical, pieces[3]) == 1);
    assert(extent(Direction::Vertical, pieces[4]) == 1);
    assert(extent(Direction::Vertical, pieces[5]) == 1);
    assert(start(Direction::Vertical, pieces[1]) == pieces[0].y + pieces[0].height);
    assert(start(Direction::Vertical, pieces[6]) == pieces[5].y + pieces[5].height);
}

proof fn lemma_length_next(cs: Seq<Constraint>, i: int)
    requires
        0 <= i < cs.len(),
    ensures
        total_length(cs.take(i + 1)) == total_length(cs.take(i)) + (match cs[i] {
            Constraint::Length(n) => n as int,
            _ => 0,
        }),
{
    assert(cs.take(i + 1).drop_last() =~= cs.take(i));
}

proof fn lemma_splash_lengths()
    ensures
        total_length(splash_constraints()) == 14,
        without_minimum(splash_constraints()),
{
    let cs = splash_constraints();
    assert(cs.take(0) =~= Seq::empty());
    lemma_length_next(cs, 0);
    lemma_length_next(cs, 1);
    lemma_length_next(cs, 2);
    lemma_length_next(cs, 3);
    lemma_length_next(cs, 4);
    lemma_length_next(cs, 5);
    lemma_length_next(cs, 6);
    assert(cs.take(7) =~= cs);
}

proof fn lemma_splash_asks(size: int)
    ensures
        total_asked(splash_constraints(), size) == 1400 + 55 * size,
{
    let cs = splash_constraints();
    assert(cs.take(0) =~= Seq::empty());
    lemma_total_next(cs, 0, size);
    lemma_total_next(cs, 1, size);
    lemma_total_next(cs, 2, size);
    lemma_total_next(cs, 3, size);
    lemma_total_next(cs, 4, size);
    lemma_total_next(cs, 5, size);
    lemma_total_next(cs, 6, size);
    assert(cs.take(7) =~= cs);
}

/// From fourteen rows on the splash shows all of the logo, the progress bar and the status, in that
/// order and at fixed distances. It begins a quarter of the way down where that leaves at least one
/// row below it, and otherwise at most one row above the bottom.
pub proof fn law_splash_is_shown_whole(
    area: Area,
    splash: SplashStateView,
    gauge: Gauge,
    draws: Seq<DrawView>,
)
    requires
        splash_drawn(area, splash, gauge, draws),
        area.height >= 14,
        area.y + area.height <= u16::MAX,
    ensures
        draws.len() == 3,
        draws[0].area.height == 9,
        draws[1].area.height == 1,
        draws[2].area.height == 1,
        draws[1].area.y == draws[0].area.y + 11,
        draws[2].area.y == draws[0].area.y + 13,
        area.height >= 20 ==> draws[0].area.y == area.y + cells(25 * area.height),
        area.height < 20 ==> area.height - 15 <= draws[0].area.y - area.y <= area.height - 14,
{
    let pieces = choose|pieces: Seq<Area>| #[trigger]
        divided(Direction::Vertical, splash_constraints(), area, pieces) && draws == splash_draws(
            splash,
            gauge,
            pieces,
        );
    let cs = splash_constraints();
    lemma_splash_row(area, pieces);
    if area.height >= 20 {
        law_splash_layout(area, splash, gauge, draws);
    } else {
        lemma_splash_asks(area.height as int);
        lemma_splash_lengths();
        assert(crowded(Direction::Vertical, cs, area, pieces));
        assert(framed(cs));
        assert(front_goes_first(Direction::Vertical, cs, area, pieces));
        assert(extent(Direction::Vertical, pieces.last()) <= 1);
    }
}

/// Below fourteen rows the logo, the bar, the status and the room between them share all rows.
pub proof fn law_small_splash_fills_screen(area: Area, pieces: Seq<Area>)
    requires
        divided(Direction::Vertical, splash_constraints(), area, pieces),
        area.height < 14,
        area.y + area.height <= u16::MAX,
    ensures
        pieces.len() == 7,
        pieces[1].y == area.y,
        pieces[1].height + pieces[2].height + pieces[3].height + pieces[4].height + pieces[5].height
            == area.height,
        pieces[1].height <= 9,
        pieces[2].height <= 2,
        pieces[3].height <= 1,
        pieces[4].height <= 1,
        pieces[5].height <= 1,
{
    let cs = splash_constraints();
    let size = area.height as int;
    lemma_splash_lengths();
    lemma_splash_asks(size);
    assert(in_a_row(Direction::Vertical, area, pieces));
    assert(crowded(Direction::Vertical, cs, area, pieces));
    assert(extent(Direction::Vertical, pieces[0]) == 0);
    assert(extent(Direction::Vertical, pieces[6]) == 0);
    assert(extent(Direction::Vertical, pieces[1]) <= 9);
    assert(extent(Direction::Vertical, pieces[2]) <= 2);
    assert(extent(Direction::Vertical, pieces[3]) <= 1);
    assert(extent(Direction::Vertical, pieces[4]) <= 1);
    assert(extent(Direction::Vertical, pieces[5]) <= 1);
    assert(start(Direction::Vertical, pieces[1]) == area.y);
    assert(start(Direction::Vertical, pieces[2]) == pieces[1].y + pieces[1].height);
    assert(start(Direction::Vertical, pieces[3]) == pieces[2].y + pieces[2].height);
    assert(start(Direction::Vertical, pieces[4]) == pieces[3].y + pieces[3].height);
    assert(start(Direction::Vertical, pieces[5]) == pieces[4].y + pieces[4].height);
    assert(start(Direction::Vertical, pieces[6]) == pieces[5].y + pieces[5].height);
}

/// The startup splash and the connecting splash draw the same: for one state and area, the same logo,
/// progress bar, percentage, spinner and message over the same columns; from fourteen rows on with
/// the same heights and distances and at most one row apart; from twenty rows on in the same places.
/// On any screen they are equal where the screen is divided alike.
pub proof fn law_both_splashes_are_alike(
    area: Area,
    splash: SplashStateView,
    gauge: Gauge,
    startup: Seq<DrawView>,
    connecting: Seq<DrawView>,
)
    requires
        splash_drawn(area, splash, gauge, startup),
        splash_drawn(area, splash, gauge, connecting),
    ensures
        startup.len() == 3,
        connecting.len() == 3,
        forall|i: int|
            0 <= i < 3 ==> (#[trigger] startup[i]).widget == connecting[i].widget
                && startup[i].area.x == connecting[i].area.x && startup[i].area.width
                == connecting[i].area.width,
        area.height >= 14 && area.y + area.height <= u16::MAX ==> forall|i: int|
            0 <= i < 3 ==> (#[trigger] startup[i]).area.height == connecting[i].area.height
                && startup[i].area.y - startup[0].area.y == connecting[i].area.y
                - connecting[0].area.y && -1 <= startup[i].area.y - connecting[i].area.y <= 1,
        area.height >= 20 && area.y + area.height <= u16::MAX ==> startup == connecting,
        (exists|pieces: Seq<Area>|
            startup == #[trigger] splash_draws(splash, gauge, pieces) && connecting == splash_draws(
                splash,
                gauge,
                pieces,
            )) ==> startup == connecting,
{
    let a = choose|pieces: Seq<Area>| #[trigger]
        divided(Direction::Vertical, splash_constraints(), area, pieces) && startup == splash_draws(
            splash,
            gauge,
            pieces,
        );
    let b = choose|pieces: Seq<Area>| #[trigger]
        divided(Direction::Vertical, splash_constraints(), area, pieces) && connecting
            == splash_draws(splash, gauge, pieces);
    assert(piece_inside(Direction::Vertical, area, a[1]));
    assert(piece_inside(Direction::Vertical, area, a[3]));
    assert(piece_inside(Direction::Vertical, area, a[5]));
    assert(piece_inside(Direction::Vertical, area, b[1]));
    assert(piece_inside(Direction::Vertical, area, b[3]));
    assert(piece_inside(Direction::Vertical, area, b[5]));
    if area.height >= 14 && area.y + area.height <= u16::MAX {
        law_splash_is_shown_whole(area, splash, gauge, startup);
        law_splash_is_shown_whole(area, splash, gauge, connecting);
    }
    if area.height >= 20 && area.y + area.height <= u16::MAX {
        law_splash_layout(area, splash, gauge, startup);
        law_splash_layout(area, splash, gauge, connecting);
        assert(startup =~= connecting);
    }
}

/// On a screen too low for both, header and status bar share all rows, neither with more than it
/// has on a higher one, and nothing is left for the list.
pub proof fn law_low_screen_is_shared(area: Area, app: AppView, draws: Seq<DrawView>)
    requires
        main_drawn(area, app, draws),
        area.height < 8,
        area.y + area.height <= u16::MAX,
    ensures
        draws.len() == 4,
        draws[0].area.y == area.y,
        draws[0].area.height == draws[1].area.height,
        draws[0].area.height <= 5,
        draws[2].area.height == 0,
        draws[3].area.height <= 3,
        draws[3].area.y == area.y + draws[0].area.height,
        draws[0].area.height + draws[3].area.height == area.height,
{
    let (pieces, columns) = choose|pieces: Seq<Area>, columns: Seq<Area>|
        #![trigger main_draws(app, pieces, columns)]
        divided(Direction::Vertical, main_constraints(), area, pieces) && divided(
            Direction::Horizontal,
            header_constraints(),
            pieces[0],
            columns,
        ) && draws == main_draws(app, pieces, columns);
    let cs = main_constraints();
    let size = area.height as int;
    assert(cs.take(0) =~= Seq::empty());
    lemma_total_next(cs, 0, size);
    lemma_total_next(cs, 1, size);
    lemma_total_next(cs, 2, size);
    assert(cs.take(3) =~= cs);
    assert(in_a_row(Direction::Vertical, area, pieces));
    assert(crowded(Direction::Vertical, cs, area, pieces));
    assert(extent(Direction::Vertical, pieces[0]) <= 5);
    assert(extent(Direction::Vertical, pieces[1]) == 0);
    assert(extent(Direction::Vertical, pieces[2]) <= 3);
    assert(start(Direction::Vertical, pieces[1]) == pieces[0].y + pieces[0].height);
    assert(start(Direction::Vertical, pieces[2]) == pieces[1].y + pieces[1].height);
    assert(piece_inside(Direction::Horizontal, pieces[0], columns[0]));
    assert(piece_inside(Direction::Horizontal, pieces[0], columns[1]));
}

/// On a screen too narrow for more, the logo takes the whole width of the header.
pub proof fn law_narrow_header_is_all_logo(area: Area, columns: Seq<Area>)
    requires
        divided(Direction::Horizontal, header_constraints(), area, columns),
        area.width <= 36,
        area.x + area.width <= u16::MAX,
    ensures
        columns.len() == 2,
        columns[0].width == 0,
        columns[1] == area,
{
    let hs = header_constraints();
    let size = area.width as int;
    assert(hs.take(0) =~= Seq::empty());
    lemma_total_next(hs, 0, size);
    lemma_total_next(hs, 1, size);
    assert(hs.take(2) =~= hs);
    assert(in_a_row(Direction::Horizontal, area, columns));
    assert(crowded(Direction::Horizontal, hs, area, columns));
    assert(extent(Direction::Horizontal, columns[0]) == 0);
    assert(start(Direction::Horizontal, columns[1]) == columns[0].x + columns[0].width);
    assert(piece_inside(Direction::Horizontal, area, columns[1]));
}

// ── Laws of what is shown ───────────────────────────────

/// The context list has one row for each context, in order, with its name, cluster, namespace and user.
/// A dot stands before the name of the active one and of no other, and the row of the selected one, and
/// of no other, has a background.
pub proof fn law_context_rows(app: AppView, i: int)
    requires
        0 <= i < app.contexts.len(),
    ensures
        ({
            let ctx = app.contexts[i].ctx;
            let row = context_list(app)[i];
            let mark = row.cells[0].spans[0];
            &&& context_list(app).len() == app.contexts.len()
            &&& row.cells.len() == 4
            &&& row.cells[0].spans.len() == 2
            &&& ctx.is_active ==> mark.text == "●"@ + " "@ && mark.style.fg == Some(Color::Green)
            &&& !ctx.is_active ==> mark.text == " "@ + " "@ && mark.style.fg == Some(
                Color::DarkGray,
            )
            &&& row.cells[0].spans[1].text == ctx.name
            &&& row.cells[0].spans[1].style.bold
            &&& row.cells[1].spans == seq![span(ctx.cluster, fg_style(Color::DarkGray))]
            &&& row.cells[2].spans == seq![span(ctx.namespace, fg_style(Color::Cyan))]
            &&& row.cells[3].spans == seq![span(ctx.user, fg_style(Color::DarkGray))]
            &&& row.style.fg == Some(Color::White)
            &&& i == app.ctx_selected ==> row.style.bg == Some(Color::Rgb(30, 30, 46))
            &&& i != app.ctx_selected ==> row.style.bg is None
        }),
{
}

/// Where there are contexts they are shown as a table under four titles, with the selected row as the
/// selected one; where there are none, a hint is shown.
pub proof fn law_contexts_are_listed(app: AppView)
    ensures
        app.contexts.len() > 0 ==> (contexts_widget(app) matches WidgetView::List { table }
            && table.rows == context_list(app) && table.selected == app.ctx_selected
            && table.header.cells.len() == 4 && table.header.cells[0].spans[0].text == "  Context"@
            && table.header.cells[1].spans[0].text == "Cluster"@ && table.header.cells[2].spans[0].text
            == "Namespace"@ && table.header.cells[3].spans[0].text == "User"@ && table.widths == seq![
            28u16,
            24u16,
            14u16,
            14u16,
        ] && table.title.text == " Contexts "@),
        app.contexts.len() == 0 ==> (contexts_widget(app) matches WidgetView::Text { paragraph }
            && paragraph.lines.len() == 3 && paragraph.lines[1].spans[0].text
            == "  No Kubernetes contexts found."@ && paragraph.lines[2].spans[0].text
            == "  Check ~/.kube/config"@),
{
}

/// The service list has one row for each service, in order, with its name, namespace, type, ports, short
/// DNS name and status. It is routed exactly where some entry carries both its name and its namespace;
/// otherwise it is headless where it has no address of its own, and pending where it has one. The row of
/// the selected service, and of no other, has a background.
pub proof fn law_service_rows(app: AppView, i: int)
    requires
        0 <= i < app.services.len(),
    ensures
        ({
            let svc = app.services[i];
            let row = service_list(app)[i];
            let routed = exists|k: int|
                0 <= k < app.service_entries.len() && (#[trigger] app.service_entries[k]).name
                    == svc.name && app.service_entries[k].namespace == svc.namespace;
            let bare = svc.cluster_ip == "None"@ || svc.cluster_ip == "-"@;
            let status = row.cells[5].spans[0];
            let dns = row.cells[4].spans[0];
            &&& service_list(app).len() == app.services.len()
            &&& row.cells.len() == 6
            &&& row.cells[0].spans.len() == 2
            &&& row.cells[0].spans[0].text == "  "@
            &&& row.cells[0].spans[1].text == svc.name
            &&& row.cells[1].spans == seq![span(svc.namespace, fg_style(Color::Cyan))]
            &&& row.cells[2].spans.len() == 1
            &&& row.cells[2].spans[0].text == svc.service_type
            &&& svc.service_type == "LoadBalancer"@ ==> row.cells[2].spans[0].style.fg == Some(
                Color::Green,
            )
            &&& svc.service_type == "NodePort"@ ==> row.cells[2].spans[0].style.fg == Some(
                Color::Yellow,
            )
            &&& svc.service_type != "LoadBalancer"@ && svc.service_type != "NodePort"@
                ==> row.cells[2].spans[0].style.fg == Some(Color::DarkGray)
            &&& row.cells[3].spans == seq![
                span(services::ports_text(svc.ports), fg_style(Color::DarkGray)),
            ]
            &&& row.cells[4].spans.len() == 1
            &&& dns.text == svc.name + "."@ + svc.namespace
            &&& routed ==> dns.style.fg == Some(Color::Cyan)
            &&& !routed ==> dns.style.fg == Some(Color::DarkGray)
            &&& row.cells[5].spans.len() == 1
            &&& routed ==> status.text == "● routed"@ && status.style.fg == Some(Color::Green)
            &&& !routed && bare ==> status.text == "○ headless"@ && status.style.fg == Some(
                Color::DarkGray,
            )
            &&& !routed && !bare ==> status.text == "○ pending"@ && status.style.fg == Some(
                Color::DarkGray,
            )
            &&& i == app.svc_selected ==> row.style.bg == Some(Color::Rgb(30, 30, 46))
            &&& i != app.svc_selected ==> row.style.bg is None
        }),
{
    let svc = app.services[i];
    let entries = app.service_entries;
    if exists|k: int|
        0 <= k < entries.len() && (#[trigger] entries[k]).name == svc.name && entries[k].namespace
            == svc.namespace {
        let k = choose|k: int|
            0 <= k < entries.len() && (#[trigger] entries[k]).name == svc.name
                && entries[k].namespace == svc.namespace;
        app::law_entry_of_service_is_found(entries, svc.name, svc.namespace, k);
    }
    if let Some(entry) = app::find_entry(entries, svc.name, svc.namespace) {
        app::law_found_entry_is_first_of_service(entries, svc.name, svc.namespace, entry);
    }
    reveal_strlit("LoadBalancer");
    reveal_strlit("NodePort");
}

/// Where there are services they are shown as a table under six titles, with the selected row as the
/// selected one; where there are none, a hint is shown.
pub proof fn law_services_are_listed(app: AppView)
    ensures
        app.services.len() > 0 ==> (services_widget(app) matches WidgetView::List { table }
            && table.rows == service_list(app) && table.selected == app.svc_selected
            && table.header.cells.len() == 6 && table.header.cells[0].spans[0].text == "  Service"@
            && table.header.cells[1].spans[0].text == "Namespace"@ && table.header.cells[2].spans[0].text
            == "Type"@ && table.header.cells[3].spans[0].text == "Ports"@
            && table.header.cells[4].spans[0].text == "DNS"@ && table.header.cells[5].spans[0].text
            == "Status"@ && table.widths == seq![20u16, 14u16, 14u16, 14u16, 22u16, 12u16]
            && table.title.text == " Services "@),
        app.services.len() == 0 ==> (services_widget(app) matches WidgetView::Text { paragraph }
            && paragraph.lines.len() == 2 && paragraph.lines[1].spans[0].text
            == "  No services found in this cluster."@),
{
}

/// The header counts the contexts on the context list. On the service list it names the connected
/// context, or shows a question mark where there is none, and counts the services and the entries.
pub proof fn law_header_counts(app: AppView)
    ensures
        app.screen == Screen::Contexts ==> {
            let lines = header_lines(app);
            &&& lines.len() == 2
            &&& lines[0].spans.len() == 2
            &&& lines[0].spans[1].text == "Cluster Contexts"@
            &&& lines[1].spans.len() == 1
            &&& lines[1].spans[0].text == "   "@ + text::digits(app.contexts.len())
                + " contexts found"@
        },
        app.screen == Screen::Services ==> {
            let lines = header_lines(app);
            &&& lines.len() == 2
            &&& lines[0].spans.len() == 3
            &&& app.connected_context matches Some(name) ==> lines[0].spans[1].text == name
            &&& app.connected_context is None ==> lines[0].spans[1].text == "?"@
            &&& lines[0].spans[2].text == "  "@ + text::digits(app.services.len()) + " services"@
            &&& lines[1].spans.len() == 1
            &&& lines[1].spans[0].text == "   "@ + text::digits(app.service_entries.len())
                + " proxied  ·  use <svc>.<ns> in browser"@
        },
        app.screen == Screen::Splash ==> header_lines(app).len() == 0,
{
}

/// A message takes the whole status bar, in red where it is an error and in green where it is not.
/// Without one the keys of the screen are shown.
pub proof fn law_status_bar(screen: Screen, toast: Option<ToastView>)
    ensures
        toast matches Some(t) ==> {
            let spans = status_line(screen, toast).spans;
            &&& spans.len() == 1
            &&& spans[0].text == "  "@ + t.message
            &&& t.is_error ==> spans[0].style.fg == Some(Color::Red)
            &&& !t.is_error ==> spans[0].style.fg == Some(Color::Green)
        },
        toast is None && screen == Screen::Contexts ==> {
            let spans = status_line(screen, toast).spans;
            &&& spans.len() == 8
            &&& spans[1].text == " "@ + "↑↓"@ + " "@ + "navigate"@
            &&& spans[3].text == " "@ + "Enter"@ + " "@ + "connect"@
            &&& spans[5].text == " "@ + "r"@ + " "@ + "refresh"@
            &&& spans[7].text == " "@ + "q"@ + " "@ + "quit"@
            &&& spans[0].text == "  "@ && spans[2].text == "  "@ && spans[4].text == "  "@
                && spans[6].text == "  "@
        },
        toast is None && screen == Screen::Services ==> {
            let spans = status_line(screen, toast).spans;
            &&& spans.len() == 12
            &&& spans[1].text == " "@ + "↑↓"@ + " "@ + "navigate"@
            &&& spans[3].text == " "@ + "Enter/o"@ + " "@ + "open browser"@
            &&& spans[5].text == " "@ + "y"@ + " "@ + "copy url"@
            &&& spans[7].text == " "@ + "r"@ + " "@ + "refresh"@
            &&& spans[9].text == " "@ + "Esc"@ + " "@ + "disconnect"@
            &&& spans[11].text == " "@ + "q"@ + " "@ + "quit"@
            &&& spans[0].text == "  "@ && spans[2].text == "  "@ && spans[4].text == "  "@
                && spans[6].text == "  "@ && spans[8].text == "  "@ && spans[10].text == "  "@
        },
        toast is None && screen == Screen::Splash ==> status_line(screen, toast).spans.len() == 1,
{
}

/// The keys of a bar are shown as the key and what it does, between single spaces, with two spaces
/// between neighbours.
pub proof fn law_key_text(key: Seq<char>, label: Seq<char>)
    ensures
        key_text(key, label).text == " "@ + key + " "@ + label,
        key_text(key, label).style.fg == Some(Color::DarkGray),
        gap().text == "  "@,
{
}

/// The progress bar is twenty cells narrower than its area. As many cells are full as the gauge says,
/// the others are empty, so that together they fill the bar; the percentage stands behind it.
pub proof fn law_progress_bar(width: int, gauge: Gauge)
    ensures
        width > 20 ==> bar_cells(width) == width - 20,
        width <= 20 ==> bar_cells(width) == 0,
        ({
            let bar = progress_bar(width, gauge);
            let spans = bar.lines[0].spans;
            &&& bar.lines.len() == 1
            &&& bar.alignment == Alignment::Center
            &&& spans.len() == 5
            &&& spans[0].text == "  ["@
            &&& spans[1].text.len() == gauge.filled
            &&& forall|i: int| 0 <= i < gauge.filled ==> #[trigger] spans[1].text[i] == '█'
            &&& forall|i: int|
                0 <= i < spans[2].text.len() ==> #[trigger] spans[2].text[i] == '░'
            &&& width > 20 && gauge.filled <= width - 20 ==> spans[1].text.len()
                + spans[2].text.len() == width - 20
            &&& width <= 20 || gauge.filled >= width - 20 ==> spans[2].text.len() == 0
            &&& spans[3].text == "]"@
            &&& spans[4].text == " "@ + text::digits(gauge.percent as nat) + "%"@
        }),
{
}

/// The status of the splash is the frame of the spinner, one of ten, and the message.
pub proof fn law_splash_status(splash: SplashStateView)
    requires
        splash.spinner_frame < 10,
    ensures
        ({
            let frames = seq!["⠋"@, "⠙"@, "⠹"@, "⠸"@, "⠼"@, "⠴"@, "⠦"@, "⠧"@, "⠇"@, "⠏"@];
            let status = splash_status(splash);
            let spans = status.lines[0].spans;
            &&& status.lines.len() == 1
            &&& status.alignment == Alignment::Center
            &&& spans.len() == 2
            &&& spans[0].text == frames[splash.spinner_frame as int] + " "@
            &&& spans[0].style.fg == Some(Color::Yellow)
            &&& spans[1].text == splash.message
        }),
{
}

/// The six lines of the big logo are shown in order, and under them stand what the program is and its
/// version.
pub proof fn law_logo_names_the_program(i: int)
    requires
        0 <= i < 6,
    ensures
        splash_logo().lines.len() == 9,
        splash_logo().lines[i].spans.len() == 1,
        splash_logo().lines[i].spans[0].text == LOGO_BIG[i]@,
        splash_logo().lines[7].spans[0].text == "Kubernetes Local Development"@,
        splash_logo().lines[8].spans[0].text == "v"@ + "0.1.0"@,
        small_logo_lines().last().spans[0].text == "v"@ + "0.1.0"@,
{
}

/// The splash is shown at the start, and on the context list while connecting. At all other times the
/// screen is shown, under its header and over the status bar: the services on the service list, and the
/// contexts otherwise.
pub proof fn law_screens(area: Area, app: AppView, gauge: Gauge, draws: Seq<DrawView>)
    requires
        rendered(area, app, gauge, draws),
    ensures
        app.screen == Screen::Splash || (app.screen == Screen::Contexts && app.mode
            == Mode::Connecting) ==> {
            &&& draws.len() == 3
            &&& draws[2].widget == (WidgetView::Text { paragraph: splash_status(app.splash) })
            &&& draws[1].widget == (WidgetView::Text {
                paragraph: progress_bar(draws[1].area.width as int, gauge),
            })
            &&& draws[0].widget == (WidgetView::Text { paragraph: splash_logo() })
        },
        app.screen == Screen::Services || (app.screen == Screen::Contexts && app.mode
            == Mode::Normal) ==> {
            &&& draws.len() == 4
            &&& draws[0].widget matches WidgetView::Text { paragraph } && paragraph.lines
                == header_lines(app) && paragraph.alignment == Alignment::Left
            &&& draws[1].widget matches WidgetView::Text { paragraph } && paragraph.lines
                == small_logo_lines() && paragraph.alignment == Alignment::Right
            &&& app.screen == Screen::Services ==> draws[2].widget == services_widget(app)
            &&& app.screen == Screen::Contexts ==> draws[2].widget == contexts_widget(app)
            &&& draws[3].widget matches WidgetView::Text { paragraph } && paragraph.lines == seq![
                status_line(app.screen, app.toast),
            ]
        },
{
}

// ── Laws of how it looks ────────────────────────────────

/// A style with a color colors the text alone; a bold one is also bold. A line of one text has that text
/// in that style, and a styled line has the style as a whole.
pub proof fn law_styles(color: Color, text: Seq<char>, style: Style)
    ensures
        plain_style().fg is None && plain_style().bg is None && !plain_style().bold,
        fg_style(color).fg == Some(color) && fg_style(color).bg is None && !fg_style(color).bold,
        bold_style(color).fg == Some(color) && bold_style(color).bg is None && bold_style(color).bold,
        span(text, style).text == text && span(text, style).style == style,
        text_line(text, style).spans.len() == 1,
        text_line(text, style).spans[0].text == text,
        text_line(text, style).spans[0].style == style,
        text_line(text, style).style == plain_style(),
        styled_line(text, style).spans.len() == 1,
        styled_line(text, style).spans[0].text == text,
        styled_line(text, style).style == style,
        line(Seq::empty()).spans.len() == 0,
{
}

/// The header is marked in cyan over the contexts and in green over the services, with its title in bold
/// and its counts in gray. A line runs under it, and the logo stands on its right, in bold cyan.
pub proof fn law_header_looks(app: AppView, columns: Seq<Area>)
    ensures
        app.screen == Screen::Contexts ==> {
            let lines = header_lines(app);
            &&& lines[0].spans[0] == span(" ⎈ "@, bold_style(Color::Cyan))
            &&& lines[0].spans[1].style == bold_style(Color::White)
            &&& lines[1].spans[0].style == fg_style(Color::DarkGray)
        },
        app.screen == Screen::Services ==> {
            let lines = header_lines(app);
            &&& lines[0].spans[0] == span(" ⎈ "@, bold_style(Color::Green))
            &&& lines[0].spans[1].style == bold_style(Color::Green)
            &&& lines[0].spans[2].style == fg_style(Color::DarkGray)
            &&& lines[1].spans[0].style == fg_style(Color::DarkGray)
        },
        ({
            let draws = header_draws(app, columns);
            &&& draws.len() == 2
            &&& draws[0].area == columns[0]
            &&& draws[1].area == columns[1]
            &&& draws[0].widget matches WidgetView::Text { paragraph } && paragraph.border
                == Border::Bottom && paragraph.alignment == Alignment::Left
            &&& draws[1].widget matches WidgetView::Text { paragraph } && paragraph.border
                == Border::Bottom && paragraph.alignment == Alignment::Right
        }),
{
}

/// The small logo is shown line by line, in bold cyan, with the version in gray under it.
pub proof fn law_small_logo(i: int)
    requires
        0 <= i < text::lines(LOGO_SMALL@).len(),
    ensures
        small_logo_lines().len() == text::lines(LOGO_SMALL@).len() + 1,
        small_logo_lines()[i].spans == seq![
            span(text::lines(LOGO_SMALL@)[i], bold_style(Color::Cyan)),
        ],
        small_logo_lines().last().spans[0].style == fg_style(Color::DarkGray),
{
}

/// Table headers are bold and in a light blue, titles are bold and white, and a hint is gray.
pub proof fn law_lists_look(app: AppView)
    ensures
        contexts_widget(app) matches WidgetView::List { table } ==> table.header.style == bold_style(
            Color::Rgb(137, 180, 250),
        ) && table.title.style == bold_style(Color::White),
        services_widget(app) matches WidgetView::List { table } ==> table.header.style == bold_style(
            Color::Rgb(137, 180, 250),
        ) && table.title.style == bold_style(Color::White),
        app.contexts.len() == 0 ==> (contexts_widget(app) matches WidgetView::Text { paragraph }
            && paragraph.lines[0].spans.len() == 0 && paragraph.lines[1].style == fg_style(
            Color::DarkGray,
        ) && paragraph.lines[2].style == fg_style(Color::DarkGray) && paragraph.alignment
            == Alignment::Left && paragraph.border == Border::Bare),
        app.services.len() == 0 ==> (services_widget(app) matches WidgetView::Text { paragraph }
            && paragraph.lines[0].spans.len() == 0 && paragraph.lines[1].style == fg_style(
            Color::DarkGray,
        ) && paragraph.alignment == Alignment::Left && paragraph.border == Border::Bare),
{
}

/// The splash is centered and without borders: the logo in bold cyan, the full cells in cyan between
/// gray ones, the percentage and the message in white.
pub proof fn law_splash_looks(splash: SplashStateView, gauge: Gauge, width: int, i: int)
    requires
        0 <= i < 6,
    ensures
        splash_logo().alignment == Alignment::Center,
        splash_logo().border == Border::Bare,
        splash_logo().lines[i].spans[0].style == bold_style(Color::Cyan),
        splash_logo().lines[6].spans.len() == 0,
        splash_logo().lines[7].spans[0].style == fg_style(Color::DarkGray),
        splash_logo().lines[8].spans[0].style == fg_style(Color::DarkGray),
        progress_bar(width, gauge).border == Border::Bare,
        progress_bar(width, gauge).lines[0].spans[0].style == fg_style(Color::DarkGray),
        progress_bar(width, gauge).lines[0].spans[1].style == fg_style(Color::Cyan),
        progress_bar(width, gauge).lines[0].spans[2].style == fg_style(Color::DarkGray),
        progress_bar(width, gauge).lines[0].spans[3].style == fg_style(Color::DarkGray),
        progress_bar(width, gauge).lines[0].spans[4].style == fg_style(Color::White),
        splash_status(splash).border == Border::Bare,
        splash_status(splash).lines[0].spans[1].style == fg_style(Color::White),
{
}

/// The status bar is one line to the left under a border, in the area that it was given.
pub proof fn law_status_bar_looks(app: AppView, area: Area)
    ensures
        status_draw(app, area).area == area,
        status_draw(app, area).widget matches WidgetView::Text { paragraph } && paragraph.lines
            == seq![status_line(app.screen, app.toast)] && paragraph.alignment == Alignment::Left
            && paragraph.border == Border::Top,
{
}

} // verus!
