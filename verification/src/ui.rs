//! What the interface shows.
//!
//! Every line, cell and style is decided here; putting them on a terminal is
//! left to the outside. A wrong number on screen is therefore a bug in the
//! analysis rather than in the drawing.
use vstd::prelude::*;

use crate::app;
use crate::app::{App, Overlay, Tab};
use crate::filter;
use crate::filter::{SortKey, Toggle};
use crate::janitor;
use crate::janitor::{known_total, Reclaim, Safety, Target};
use crate::model;
use crate::model::{Entry, UsageEvidence};
use crate::number;
use crate::number::{count, padded_end, padded_start};
use crate::report;
use crate::scan;
use crate::split;
use crate::split::{joined, split_lines};
use crate::text;
use crate::text::{concat2, concat3, copy_texts};

verus! {

/// How a piece of text looks.
#[derive(Clone, Copy, Debug, PartialEq, Eq, Structural)]
pub enum Style {
    /// As it comes.
    Plain,
    /// Standing out by weight alone.
    Bold,
    /// Headings and the active tab.
    Heading,
    /// The accent colour.
    Accent,
    /// Secondary text.
    Muted,
    /// Figures worth acting on.
    Good,
    /// Figures worth acting on first.
    Best,
    /// Things needing a second look.
    Warn,
    /// Things needing a second look now.
    Alert,
    /// Destructive or protected things.
    Danger,
    /// Destructive or protected things that must not be missed.
    Peril,
    /// Packages from outside the repositories.
    Foreign,
    /// The column that the table is ordered by.
    Sorted,
    /// A filter that is on.
    Active,
    /// A query that is in force.
    Query,
}

/// A piece of text and how it looks.
#[derive(Debug, PartialEq, Eq)]
pub struct Span {
    /// The text.
    pub text: String,
    /// How it looks.
    pub style: Style,
}

/// The view of a [`Span`].
#[verifier::ext_equal]
pub struct SpanView {
    /// See [`Span::text`].
    pub text: Seq<char>,
    /// See [`Span::style`].
    pub style: Style,
}

impl View for Span {
    type V = SpanView;

    open spec fn view(&self) -> SpanView {
        SpanView { text: self.text@, style: self.style }
    }
}

/// The views of a list of spans.
pub open spec fn span_views(spans: Seq<Span>) -> Seq<SpanView> {
    Seq::new(spans.len(), |i: int| spans[i]@)
}

/// The views of a list of lines.
pub open spec fn line_views(lines: Seq<Vec<Span>>) -> Seq<Seq<SpanView>> {
    Seq::new(lines.len(), |i: int| span_views(lines[i]@))
}

/// A span.
pub open spec fn span(text: Seq<char>, style: Style) -> SpanView {
    SpanView { text, style }
}

/// A line of one span.
pub open spec fn line(text: Seq<char>, style: Style) -> Seq<SpanView> {
    seq![span(text, style)]
}

/// An empty line.
pub open spec fn blank() -> Seq<SpanView> {
    Seq::empty()
}

/// Adds a span at the end of a line.
fn add_span(spans: &mut Vec<Span>, text: String, style: Style)
    ensures
        span_views(final(spans)@) == span_views(old(spans)@).push(span(text@, style)),
{
    spans.push(Span { text, style });
    assert(span_views(spans@) =~= span_views(old(spans)@).push(span(text@, style)));
}

/// Adds a line of one span.
fn add_line(lines: &mut Vec<Vec<Span>>, text: String, style: Style)
    ensures
        line_views(final(lines)@) == line_views(old(lines)@).push(line(text@, style)),
{
    let mut spans: Vec<Span> = Vec::new();
    add_span(&mut spans, text, style);
    assert(span_views(spans@) =~= line(text@, style));
    lines.push(spans);
    assert(line_views(lines@) =~= line_views(old(lines)@).push(line(text@, style)));
}

/// Adds an empty line.
fn add_blank(lines: &mut Vec<Vec<Span>>)
    ensures
        line_views(final(lines)@) == line_views(old(lines)@).push(blank()),
{
    let spans: Vec<Span> = Vec::new();
    assert(span_views(spans@) =~= blank());
    lines.push(spans);
    assert(line_views(lines@) =~= line_views(old(lines)@).push(blank()));
}

// ---------------------------------------------------------------------------
// Geometry
// ---------------------------------------------------------------------------

/// Width at which the detail pane is dropped.
pub const NARROW: u16 = 110;

/// Width of a column of sizes. The width of a column and the width that its
/// cells are padded to must agree, or the padded text overflows its cell and
/// loses its last characters.
pub const SIZE_WIDTH: usize = 10;

/// Width of the last-used column.
pub const USAGE_WIDTH: usize = 10;

/// Width of the install-date column.
pub const ADDED_WIDTH: usize = 8;

/// Width of the dependant-count column.
pub const NEEDED_WIDTH: usize = 9;

/// A rectangle of the screen.
#[derive(Clone, Copy, Debug, PartialEq, Eq, Structural)]
pub struct Area {
    /// Columns from the left.
    pub x: u16,
    /// Rows from the top.
    pub y: u16,
    /// Columns.
    pub width: u16,
    /// Rows.
    pub height: u16,
}

/// Whether there is room for the detail pane.
pub fn is_wide(width: u16) -> (r: bool)
    ensures
        r == (width >= NARROW),
{
    width >= NARROW
}

/// The rows that a table of the given height shows. Some rows of chrome sit
/// around the data; paging by anything more would scroll past content the user
/// never saw.
pub fn page_rows(height: u16) -> (r: usize)
    ensures
        r == (if height > 4 {
            height - 3
        } else {
            1
        }),
{
    if height > 4 {
        (height - 3) as usize
    } else {
        1
    }
}

/// Which way an area is cut.
#[derive(Clone, Copy, Debug, PartialEq, Eq, Structural)]
pub enum Axis {
    /// Into columns, left to right.
    Across,
    /// Into rows, top to bottom.
    Down,
}

/// How much of an area a part of it asks for.
#[derive(Clone, Copy, Debug, PartialEq, Eq, Structural)]
pub enum Share {
    /// So many columns or rows.
    Length(u16),
    /// At least so many columns or rows.
    Min(u16),
}

/// Whether a part of an area keeps what a cut along the axis leaves alone: a
/// row is as wide as the whole and stands under it, a column is as high as the
/// whole and stands beside it.
pub open spec fn keeps_across(whole: Area, axis: Axis, part: Area) -> bool {
    match axis {
        Axis::Across => part.y == whole.y && part.height == whole.height,
        Axis::Down => part.x == whole.x && part.width == whole.width,
    }
}

/// Whether a part of an area lies inside it along the axis of the cut: it does
/// not start before the whole and does not end behind it. Coordinates stop at
/// the largest one.
pub open spec fn stays_along(whole: Area, axis: Axis, part: Area) -> bool {
    match axis {
        Axis::Across => {
            &&& whole.x <= part.x
            &&& part.x + part.width <= coordinate_sum(whole.x, whole.width)
        },
        Axis::Down => {
            &&& whole.y <= part.y
            &&& part.y + part.height <= coordinate_sum(whole.y, whole.height)
        },
    }
}

/// Where an area begins along an axis.
pub open spec fn begin(area: Area, axis: Axis) -> u16 {
    match axis {
        Axis::Across => area.x,
        Axis::Down => area.y,
    }
}

/// How long an area is along an axis.
pub open spec fn extent(area: Area, axis: Axis) -> u16 {
    match axis {
        Axis::Across => area.width,
        Axis::Down => area.height,
    }
}

/// The columns or rows of an area that there are coordinates for.
pub open spec fn room(area: Area, axis: Axis) -> int {
    coordinate_sum(begin(area, axis), extent(area, axis)) - begin(area, axis)
}

/// The columns or rows that a share names.
pub open spec fn amount(share: Share) -> int {
    match share {
        Share::Length(n) => n as int,
        Share::Min(n) => n as int,
    }
}

/// What the shares ask for together.
pub open spec fn asked(shares: Seq<Share>) -> int
    decreases shares.len(),
{
    if shares.len() == 0 {
        0
    } else {
        asked(shares.drop_last()) + amount(shares.last())
    }
}

/// Whether shares are few and at most one of them is a minimum, of no more than
/// the largest signed number of 16 bits.
pub open spec fn are_simple(shares: Seq<Share>) -> bool {
    &&& shares.len() <= 3
    &&& forall|i: int|
        0 <= i < shares.len() ==> (#[trigger] shares[i] is Min ==> amount(shares[i]) <= i16::MAX)
    &&& forall|i: int, j: int|
        0 <= i < j < shares.len() ==> !(#[trigger] shares[i] is Min && #[trigger] shares[j] is Min)
}

/// Whether a part has the size that its share is granted where so much is asked
/// for altogether, with so much room. Where everything fits, a length gets what
/// it asks for and the minimum gets the rest. Where it does not, the minimum
/// comes first, and a length gets no more than it asks for.
pub open spec fn is_granted(share: Share, asked: int, room: int, size: int) -> bool {
    match share {
        Share::Length(n) => size <= n && (asked <= room ==> size == n),
        Share::Min(n) => size == (if asked <= room {
            room - (asked - n)
        } else if n <= room {
            n as int
        } else {
            room
        }),
    }
}

/// Whether a part begins where the one before it ends, the first one where the
/// whole begins.
pub open spec fn follows(whole: Area, axis: Axis, parts: Seq<Area>, i: int) -> bool {
    begin(parts[i], axis) == (if i == 0 {
        begin(whole, axis) as int
    } else {
        begin(parts[i - 1], axis) + extent(parts[i - 1], axis)
    })
}

/// Whether an area is cut as the shares say: into one part for every share, in
/// their order, one behind the other, inside the whole, as high or as wide as
/// the whole, and each as long as it is granted. Where the shares ask for more
/// than there is, nothing is left over.
pub open spec fn is_cut(whole: Area, axis: Axis, shares: Seq<Share>, parts: Seq<Area>) -> bool {
    &&& parts.len() == shares.len()
    &&& forall|i: int| 0 <= i < parts.len() ==> keeps_across(whole, axis, #[trigger] parts[i])
    &&& forall|i: int| 0 <= i < parts.len() ==> stays_along(whole, axis, #[trigger] parts[i])
    &&& forall|i: int| 0 <= i < parts.len() ==> #[trigger] follows(whole, axis, parts, i)
    &&& forall|i: int|
        0 <= i < parts.len() ==> is_granted(
            shares[i],
            asked(shares),
            room(whole, axis),
            extent(#[trigger] parts[i], axis) as int,
        )
    &&& asked(shares) > room(whole, axis) ==> begin(parts.last(), axis) + extent(
        parts.last(),
        axis,
    ) == begin(whole, axis) + room(whole, axis)
}

/// Cuts an area with `ratatui::layout::Layout::split`.
///
/// One part comes back for every share, in the order of the shares, with
/// neither a gap nor an overlap between them: the default spacing is none. The
/// direction that is not cut is left as it is. Minimums have priority over
/// lengths, so where the shares do not fit a single minimum still gets its
/// amount, as far as there is room; where they fit, every length gets its
/// amount, and a single minimum grows into the rest. This is claimed of short
/// lists with at most one minimum. The solver reads a minimum as a signed number
/// of 16 bits.
///
/// How lengths share what is too little for them is not claimed: equally good
/// solutions are told apart by the order in which hash maps seeded by the
/// process are walked.
#[verifier::external_body]
fn cut(area: Area, axis: Axis, shares: &Vec<Share>) -> (r: Vec<Area>)
    requires
        are_simple(shares@),
    ensures
        is_cut(area, axis, shares@, r@),
{
    let direction = match axis {
        Axis::Across => ratatui::layout::Direction::Horizontal,
        Axis::Down => ratatui::layout::Direction::Vertical,
    };
    let constraints = shares.iter().map(|share| match share {
        Share::Length(n) => ratatui::layout::Constraint::Length(*n),
        Share::Min(n) => ratatui::layout::Constraint::Min(*n),
    });
    let Area { x, y, width, height } = area;
    let whole = ratatui::layout::Rect { x, y, width, height };
    let parts = ratatui::layout::Layout::new(direction, constraints).split(whole);
    parts.iter().map(|p| Area { x: p.x, y: p.y, width: p.width, height: p.height }).collect()
}

/// The sum of two coordinates, as far as coordinates go.
pub open spec fn coordinate_sum(a: u16, b: u16) -> u16 {
    if a + b > u16::MAX {
        u16::MAX
    } else {
        (a + b) as u16
    }
}

/// What a margin leaves of an area. A margin that leaves nothing leaves the
/// empty area at the origin.
pub open spec fn within(area: Area, horizontal: u16, vertical: u16) -> Area {
    let sides = coordinate_sum(horizontal, horizontal);
    let ends = coordinate_sum(vertical, vertical);
    if area.width < sides || area.height < ends {
        Area { x: 0, y: 0, width: 0, height: 0 }
    } else {
        Area {
            x: coordinate_sum(area.x, horizontal),
            y: coordinate_sum(area.y, vertical),
            width: (area.width - sides) as u16,
            height: (area.height - ends) as u16,
        }
    }
}

/// Takes a margin off an area with `ratatui::layout::Rect::inner`.
///
/// The margin is taken off both sides and both ends. Where it does not fit, the
/// empty area at the origin comes back. Coordinates stop at the largest one.
#[verifier::external_body]
fn inner(area: Area, horizontal: u16, vertical: u16) -> (r: Area)
    ensures
        r == within(area, horizontal, vertical),
{
    let Area { x, y, width, height } = area;
    let whole = ratatui::layout::Rect { x, y, width, height };
    let left = whole.inner(ratatui::layout::Margin { horizontal, vertical });
    Area { x: left.x, y: left.y, width: left.width, height: left.height }
}

/// Where the parts of the interface go.
#[derive(Clone, Copy, Debug, PartialEq, Eq, Structural)]
pub struct Screen {
    /// The tab strip.
    pub tabs: Area,
    /// The headline figures.
    pub summary: Area,
    /// The table.
    pub table: Area,
    /// The detail pane, where there is room for it.
    pub detail: Option<Area>,
    /// The filter bar.
    pub filters: Area,
    /// The status line.
    pub status: Area,
}

/// Whether a part of a screen lies inside it, as far as coordinates go.
pub open spec fn is_on(area: Area, part: Area) -> bool {
    &&& area.x <= part.x
    &&& area.y <= part.y
    &&& coordinate_sum(part.x, part.width) <= coordinate_sum(area.x, area.width)
    &&& coordinate_sum(part.y, part.height) <= coordinate_sum(area.y, area.height)
}

/// Whether the rows of the interface stand as they should on a screen: the
/// header on top, the body under it, the filter bar and the status line at the
/// bottom. Together they fill the screen. The body gets what the others leave;
/// on a screen too low for all of them it comes first.
pub open spec fn has_rows(area: Area, screen: Screen) -> bool {
    let height = room(area, Axis::Down);
    &&& screen.tabs.y == area.y
    &&& screen.summary.y == screen.tabs.y
    &&& screen.summary.height == screen.tabs.height
    &&& screen.table.y == screen.tabs.y + screen.tabs.height
    &&& screen.filters.y == screen.table.y + screen.table.height
    &&& screen.status.y == screen.filters.y + screen.filters.height
    &&& screen.status.y + screen.status.height == area.y + height
    &&& if height >= 10 {
        &&& screen.tabs.height == 3
        &&& screen.filters.height == 1
        &&& screen.status.height == 1
    } else {
        &&& screen.tabs.height <= 3
        &&& screen.table.height == (if height >= 5 {
            5
        } else {
            height
        })
        &&& screen.filters.height <= 1
        &&& screen.status.height <= 1
    }
}

/// Whether the columns of the interface stand as they should on a screen: the
/// headline figures beside the tab strip, the detail pane beside the table
/// where the screen is wide enough and nowhere otherwise, and the two bottom
/// lines as wide as the screen.
pub open spec fn has_columns(area: Area, screen: Screen) -> bool {
    let width = room(area, Axis::Across);
    &&& screen.tabs.x == area.x
    &&& screen.tabs.width == (if width >= 48 {
        28
    } else if width >= 20 {
        width - 20
    } else {
        0
    })
    &&& screen.summary.x == screen.tabs.x + screen.tabs.width
    &&& screen.summary.width == width - screen.tabs.width
    &&& screen.table.x == area.x
    &&& match screen.detail {
        Some(detail) => {
            &&& area.width >= NARROW
            &&& detail.y == screen.table.y
            &&& detail.height == screen.table.height
            &&& detail.x == screen.table.x + screen.table.width
            &&& detail.width == (if width >= 104 {
                44
            } else if width >= 60 {
                width - 60
            } else {
                0
            })
            &&& screen.table.width == width - detail.width
        },
        None => {
            &&& area.width < NARROW
            &&& screen.table.width == area.width
        },
    }
    &&& screen.filters.x == area.x
    &&& screen.filters.width == area.width
    &&& screen.status.x == area.x
    &&& screen.status.width == area.width
}

/// Whether the parts of the interface stand as they should on a screen.
pub open spec fn is_arranged(area: Area, screen: Screen) -> bool {
    has_rows(area, screen) && has_columns(area, screen)
}

/// Whether no cell of the screen belongs to both areas.
pub open spec fn are_apart(a: Area, b: Area) -> bool {
    ||| a.x + a.width <= b.x
    ||| b.x + b.width <= a.x
    ||| a.y + a.height <= b.y
    ||| b.y + b.height <= a.y
}

/// Every part of the interface lies on the screen.
pub proof fn parts_lie_on_the_screen(area: Area, screen: Screen)
    requires
        is_arranged(area, screen),
    ensures
        is_on(area, screen.tabs),
        is_on(area, screen.summary),
        is_on(area, screen.table),
        screen.detail is Some ==> is_on(area, screen.detail.unwrap()),
        is_on(area, screen.filters),
        is_on(area, screen.status),
{
}

/// No two parts of the interface cover each other.
pub proof fn parts_do_not_overlap(area: Area, screen: Screen)
    requires
        is_arranged(area, screen),
    ensures
        are_apart(screen.tabs, screen.summary),
        are_apart(screen.tabs, screen.table),
        are_apart(screen.tabs, screen.filters),
        are_apart(screen.tabs, screen.status),
        are_apart(screen.summary, screen.table),
        are_apart(screen.summary, screen.filters),
        are_apart(screen.summary, screen.status),
        are_apart(screen.table, screen.filters),
        are_apart(screen.table, screen.status),
        are_apart(screen.filters, screen.status),
        screen.detail is Some ==> {
            let detail = screen.detail.unwrap();
            &&& are_apart(detail, screen.tabs)
            &&& are_apart(detail, screen.summary)
            &&& are_apart(detail, screen.table)
            &&& are_apart(detail, screen.filters)
            &&& are_apart(detail, screen.status)
        },
{
}

/// The rows of a screen: the header, the body, and the two bottom lines.
pub fn screen_rows() -> (r: Vec<Share>)
    ensures
        r@ == seq![Share::Length(3), Share::Min(5), Share::Length(2)],
{
    vec![Share::Length(3), Share::Min(5), Share::Length(2)]
}

/// The columns of the header: the tab strip and the headline figures.
pub fn header_columns() -> (r: Vec<Share>)
    ensures
        r@ == seq![Share::Length(28), Share::Min(20)],
{
    vec![Share::Length(28), Share::Min(20)]
}

/// The columns of the body, where there is room for two: the table and the
/// detail pane.
pub fn body_columns() -> (r: Vec<Share>)
    ensures
        r@ == seq![Share::Min(60), Share::Length(44)],
{
    vec![Share::Min(60), Share::Length(44)]
}

/// The bottom lines: the filter bar and the status line.
pub fn bottom_rows() -> (r: Vec<Share>)
    ensures
        r@ == seq![Share::Length(1), Share::Length(1)],
{
    vec![Share::Length(1), Share::Length(1)]
}

/// What is made of the cuts: the table has the body for itself where the body
/// was not cut.
pub fn assemble(
    header: (Area, Area),
    body: Area,
    panes: Option<(Area, Area)>,
    bottom: (Area, Area),
) -> (r: Screen)
    ensures
        r == (Screen {
            tabs: header.0,
            summary: header.1,
            table: match panes {
                Some(panes) => panes.0,
                None => body,
            },
            detail: match panes {
                Some(panes) => Some(panes.1),
                None => None,
            },
            filters: bottom.0,
            status: bottom.1,
        }),
{
    let (table, detail) = match panes {
        Some((table, detail)) => (table, Some(detail)),
        None => (body, None),
    };
    Screen {
        tabs: header.0,
        summary: header.1,
        table,
        detail,
        filters: bottom.0,
        status: bottom.1,
    }
}

/// The header, the body and the bottom lines among the rows of a screen.
pub fn rows_of(rows: &Vec<Area>) -> (r: (Area, Area, Area))
    requires
        rows@.len() == 3,
    ensures
        r == (rows@[0], rows@[1], rows@[2]),
{
    (rows[0], rows[1], rows[2])
}

/// Cuts an area in two.
fn cut_in_two(area: Area, axis: Axis, shares: &Vec<Share>) -> (r: (Area, Area))
    requires
        shares@.len() == 2,
        are_simple(shares@),
    ensures
        is_cut(area, axis, shares@, seq![r.0, r.1]),
{
    let parts = cut(area, axis, shares);
    assert(parts@ =~= seq![parts@[0], parts@[1]]);
    (parts[0], parts[1])
}

/// What a cut in two says of its parts.
proof fn lemma_two_parts(whole: Area, axis: Axis, shares: Seq<Share>, parts: Seq<Area>)
    requires
        shares.len() == 2,
        is_cut(whole, axis, shares, parts),
    ensures
        asked(shares) == amount(shares[0]) + amount(shares[1]),
        parts.len() == 2,
        keeps_across(whole, axis, parts[0]),
        keeps_across(whole, axis, parts[1]),
        begin(parts[0], axis) == begin(whole, axis),
        begin(parts[1], axis) == begin(parts[0], axis) + extent(parts[0], axis),
{
    reveal_with_fuel(asked, 3);
    assert(shares.drop_last().last() == shares[0]);
    assert(follows(whole, axis, parts, 0));
    assert(follows(whole, axis, parts, 1));
}

/// Arranges the parts of the interface on a screen: cuts it as
/// [`screen_rows`], [`header_columns`], [`body_columns`] and [`bottom_rows`]
/// say, takes the rows as [`rows_of`] says, and hands the cuts to [`assemble`].
///
/// Every size and position is fixed on a screen of ten rows and more. On a lower
/// one it is not said whether the header or the bottom lines give way first.
pub fn arrange(area: Area) -> (r: Screen)
    ensures
        is_arranged(area, r),
{
    let rows = cut(area, Axis::Down, &screen_rows());
    let (top, middle, end) = rows_of(&rows);
    proof {
        let shares = seq![Share::Length(3), Share::Min(5), Share::Length(2)];
        reveal_with_fuel(asked, 4);
        assert(shares.drop_last() =~= seq![Share::Length(3), Share::Min(5)]);
        assert(asked(shares) == 10);
        assert(follows(area, Axis::Down, rows@, 0));
        assert(follows(area, Axis::Down, rows@, 1));
        assert(follows(area, Axis::Down, rows@, 2));
    }
    let header = cut_in_two(top, Axis::Across, &header_columns());
    proof {
        lemma_two_parts(
            top,
            Axis::Across,
            seq![Share::Length(28), Share::Min(20)],
            seq![header.0, header.1],
        );
    }
    let panes = if is_wide(area.width) {
        let panes = cut_in_two(middle, Axis::Across, &body_columns());
        proof {
            lemma_two_parts(
                middle,
                Axis::Across,
                seq![Share::Min(60), Share::Length(44)],
                seq![panes.0, panes.1],
            );
        }
        Some(panes)
    } else {
        None
    };
    let bottom = cut_in_two(end, Axis::Down, &bottom_rows());
    proof {
        lemma_two_parts(
            end,
            Axis::Down,
            seq![Share::Length(1), Share::Length(1)],
            seq![bottom.0, bottom.1],
        );
    }
    assemble(header, middle, panes, bottom)
}

/// The rows of a modal that shows a number of lines.
pub open spec fn modal_height(area: Area, lines: nat) -> int {
    let wanted = if lines + 4 > u16::MAX {
        u16::MAX as int
    } else {
        (lines + 4) as int
    };
    let room = if area.height < 2 {
        0
    } else {
        area.height - 2
    };
    let fitted = if wanted < room {
        wanted
    } else {
        room
    };
    if fitted < 5 {
        5
    } else {
        fitted
    }
}

/// The columns of a modal: three quarters of the screen.
pub open spec fn modal_width(area: Area) -> int {
    if area.width * 3 > u16::MAX {
        u16::MAX as int / 4
    } else {
        area.width * 3 / 4
    }
}

/// Where a modal goes: in the middle of the screen.
pub open spec fn modal_area(area: Area, lines: nat) -> Area {
    let width = modal_width(area);
    let height = modal_height(area, lines);
    Area {
        x: (area.x + (area.width - width) / 2) as u16,
        y: (area.y + if area.height < height {
            0
        } else {
            (area.height - height) / 2
        }) as u16,
        width: width as u16,
        height: height as u16,
    }
}

/// Where a modal that shows a number of lines goes.
pub fn popup(area: Area, lines: usize) -> (r: Area)
    requires
        area.x + area.width <= u16::MAX,
        area.y + area.height <= u16::MAX,
    ensures
        r == modal_area(area, lines as nat),
{
    let width: u16 = match area.width.checked_mul(3) {
        Some(width) => width / 4,
        None => u16::MAX / 4,
    };
    let wanted: u16 = if lines > 65_531 {
        u16::MAX
    } else {
        (lines + 4) as u16
    };
    let room: u16 = if area.height < 2 {
        0
    } else {
        area.height - 2
    };
    let fitted: u16 = if wanted < room {
        wanted
    } else {
        room
    };
    let height: u16 = if fitted < 5 {
        5
    } else {
        fitted
    };
    Area {
        x: area.x + (area.width - width) / 2,
        y: if area.height < height {
            area.y
        } else {
            area.y + (area.height - height) / 2
        },
        width,
        height,
    }
}

/// Where the text of a modal goes, inside its border.
pub fn popup_text(popup: Area) -> (r: Area)
    ensures
        r == within(popup, 2, 1),
{
    inner(popup, 2, 1)
}

/// The text of a modal stays inside its border.
pub proof fn modal_text_stays_inside(popup: Area)
    requires
        popup.x + popup.width <= u16::MAX,
        popup.y + popup.height <= u16::MAX,
        popup.width >= 4,
        popup.height >= 2,
    ensures
        popup.x < within(popup, 2, 1).x,
        popup.y < within(popup, 2, 1).y,
        within(popup, 2, 1).x + within(popup, 2, 1).width < popup.x + popup.width,
        within(popup, 2, 1).y + within(popup, 2, 1).height < popup.y + popup.height,
{
}

/// A modal stays on a screen that is at least five rows high.
pub proof fn modals_stay_on_screen(area: Area, lines: nat)
    requires
        area.x + area.width <= u16::MAX,
        area.y + area.height <= u16::MAX,
        area.height >= 5,
    ensures
        area.x <= modal_area(area, lines).x,
        area.y <= modal_area(area, lines).y,
        modal_area(area, lines).x + modal_area(area, lines).width <= area.x + area.width,
        modal_area(area, lines).y + modal_area(area, lines).height <= area.y + area.height,
{
}

// ---------------------------------------------------------------------------
// The package table
// ---------------------------------------------------------------------------

/// The style of a column heading.
pub open spec fn heading_style(sort: SortKey, key: SortKey) -> Style {
    if sort == key {
        Style::Sorted
    } else {
        Style::Accent
    }
}

/// Highlight the column the table is ordered by.
pub fn sort_style(sort: SortKey, key: SortKey) -> (r: Style)
    ensures
        r == heading_style(sort, key),
{
    if sort == key {
        Style::Sorted
    } else {
        Style::Accent
    }
}

/// The headings of the package table. The one that the table is ordered by
/// stands out.
pub open spec fn package_heading_views(sort: SortKey) -> Seq<SpanView> {
    seq![
        span(" "@, Style::Heading),
        span("package"@, Style::Heading),
        span("size"@, heading_style(sort, SortKey::Size)),
        span("frees"@, heading_style(sort, SortKey::Reclaimable)),
        span("last used"@, heading_style(sort, SortKey::LastUsed)),
        span("added"@, heading_style(sort, SortKey::Installed)),
        span("origin"@, Style::Heading),
        span("needed by"@, heading_style(sort, SortKey::RequiredBy)),
    ]
}

/// The headings of the package table.
pub fn package_headings(sort: SortKey) -> (r: Vec<Span>)
    ensures
        span_views(r@) == package_heading_views(sort),
{
    let mut cells: Vec<Span> = Vec::new();
    add_span(&mut cells, " ".to_owned(), Style::Heading);
    add_span(&mut cells, "package".to_owned(), Style::Heading);
    add_span(&mut cells, "size".to_owned(), sort_style(sort, SortKey::Size));
    add_span(&mut cells, "frees".to_owned(), sort_style(sort, SortKey::Reclaimable));
    add_span(&mut cells, "last used".to_owned(), sort_style(sort, SortKey::LastUsed));
    add_span(&mut cells, "added".to_owned(), sort_style(sort, SortKey::Installed));
    add_span(&mut cells, "origin".to_owned(), Style::Heading);
    add_span(&mut cells, "needed by".to_owned(), sort_style(sort, SortKey::RequiredBy));
    assert(span_views(cells@) =~= package_heading_views(sort));
    cells
}

/// The mark of a row: marked, protected, or neither.
pub open spec fn mark_of(entry: model::EntryView, marked: bool) -> SpanView {
    if marked {
        span("●"@, Style::Warn)
    } else if entry.facts.protected {
        span("·"@, Style::Muted)
    } else {
        span(" "@, Style::Plain)
    }
}

/// The style of a package name.
pub open spec fn name_style(entry: model::EntryView) -> Style {
    if entry.facts.protected {
        Style::Muted
    } else if entry.facts.origin is Foreign {
        Style::Foreign
    } else {
        Style::Plain
    }
}

/// The style of a date: half a year without use stands out.
pub open spec fn age_style(now: i64, at: i64) -> Style {
    if crate::format::elapsed_days(now, at) >= 180 {
        Style::Warn
    } else {
        Style::Muted
    }
}

/// The text and style of the last-used cell. Where access times mean nothing
/// there is nothing to show.
pub open spec fn usage_span(usage: model::UsageView, now: i64, atime_known: bool) -> SpanView {
    if !atime_known {
        span("—"@, Style::Muted)
    } else {
        match usage {
            model::UsageView::Used { at, .. } => span(
                crate::format::age_text(now, Some(at)),
                age_style(now, at),
            ),
            model::UsageView::UsedFromHome { at, .. } => span(
                "~"@ + crate::format::age_text(now, Some(at)),
                age_style(now, at),
            ),
            model::UsageView::NeverSinceInstall { .. } => span("never"@, Style::Peril),
            model::UsageView::NoWitness => span("n/a"@, Style::Muted),
            model::UsageView::AtimeDisabled => span("off"@, Style::Muted),
            model::UsageView::NotProbed => span("·"@, Style::Muted),
        }
    }
}

/// How many packages need a package, in a word.
pub open spec fn needed_text(dependants: nat) -> Seq<char> {
    if dependants == 0 {
        "orphan"@
    } else {
        number::decimal(dependants)
    }
}

/// The cells of a row of the package table.
pub open spec fn row_views(
    entry: model::EntryView,
    marked: bool,
    now: i64,
    atime_known: bool,
) -> Seq<SpanView> {
    let usage = usage_span(entry.facts.usage, now, atime_known);
    seq![
        mark_of(entry, marked),
        span(entry.package.name, name_style(entry)),
        span(
            number::pad_start(
                crate::format::bytes_text(entry.package.size),
                SIZE_WIDTH as nat,
                ' ',
            ),
            Style::Plain,
        ),
        span(
            number::pad_start(
                crate::format::bytes_text(entry.facts.reclaimable),
                SIZE_WIDTH as nat,
                ' ',
            ),
            // A package that frees more than its own size is dragging
            // dependencies with it, and that is the number worth acting on.
            if entry.facts.reclaimable > entry.package.size {
                Style::Best
            } else {
                Style::Muted
            },
        ),
        span(number::pad_start(usage.text, USAGE_WIDTH as nat, ' '), usage.style),
        span(
            number::pad_start(
                crate::format::age_text(now, entry.package.install_date),
                ADDED_WIDTH as nat,
                ' ',
            ),
            Style::Plain,
        ),
        span(
            entry.facts.origin.label(),
            if entry.facts.origin is Foreign {
                Style::Foreign
            } else {
                Style::Muted
            },
        ),
        span(
            number::pad_start(
                needed_text(entry.facts.required_by.len()),
                NEEDED_WIDTH as nat,
                ' ',
            ),
            Style::Plain,
        ),
    ]
}

/// The style of a date.
fn dated_style(now: i64, at: i64) -> (r: Style)
    ensures
        r == age_style(now, at),
{
    if crate::format::days_since(now, at) >= 180 {
        Style::Warn
    } else {
        Style::Muted
    }
}

/// The text and style of the last-used cell.
pub fn usage_cell(usage: &UsageEvidence, now: i64, atime_known: bool) -> (r: Span)
    ensures
        r@ == usage_span(usage@, now, atime_known),
{
    if !atime_known {
        return Span { text: "—".to_owned(), style: Style::Muted };
    }
    match usage {
        UsageEvidence::Used { at, witness: _ } => Span {
            text: crate::format::age(now, Some(*at)),
            style: dated_style(now, *at),
        },
        UsageEvidence::UsedFromHome { at, witness: _ } => Span {
            text: concat2("~", crate::format::age(now, Some(*at)).as_str()),
            style: dated_style(now, *at),
        },
        UsageEvidence::NeverSinceInstall { at: _ } => Span {
            text: "never".to_owned(),
            style: Style::Peril,
        },
        UsageEvidence::NoWitness => Span { text: "n/a".to_owned(), style: Style::Muted },
        UsageEvidence::AtimeDisabled => Span { text: "off".to_owned(), style: Style::Muted },
        UsageEvidence::NotProbed => Span { text: "·".to_owned(), style: Style::Muted },
    }
}

/// Right-align a short string into exactly `width` columns.
///
/// The width must match the column's layout constraint: padding wider than
/// the constraint pushes the last characters off the end of the cell, which is
/// how a size silently becomes `1.` instead of `1.3y`.
fn right(text: &str, width: usize) -> (r: String)
    ensures
        r@ == number::pad_start(text@, width as nat, ' '),
{
    padded_start(text, width, ' ')
}

/// One row of the package table.
pub fn package_row(entry: &Entry, marked: bool, now: i64, atime_known: bool) -> (r: Vec<Span>)
    ensures
        span_views(r@) == row_views(entry@, marked, now, atime_known),
{
    let mut cells: Vec<Span> = Vec::new();
    if marked {
        add_span(&mut cells, "●".to_owned(), Style::Warn);
    } else if entry.facts.protected {
        add_span(&mut cells, "·".to_owned(), Style::Muted);
    } else {
        add_span(&mut cells, " ".to_owned(), Style::Plain);
    }
    let foreign = entry.facts.origin.is_foreign();
    add_span(
        &mut cells,
        entry.package.name.clone(),
        if entry.facts.protected {
            Style::Muted
        } else if foreign {
            Style::Foreign
        } else {
            Style::Plain
        },
    );
    add_span(
        &mut cells,
        right(crate::format::bytes(entry.package.size).as_str(), SIZE_WIDTH),
        Style::Plain,
    );
    add_span(
        &mut cells,
        right(crate::format::bytes(entry.facts.reclaimable).as_str(), SIZE_WIDTH),
        if entry.facts.reclaimable > entry.package.size {
            Style::Best
        } else {
            Style::Muted
        },
    );
    let usage = usage_cell(&entry.facts.usage, now, atime_known);
    add_span(&mut cells, right(usage.text.as_str(), USAGE_WIDTH), usage.style);
    add_span(
        &mut cells,
        right(crate::format::age(now, entry.package.install_date).as_str(), ADDED_WIDTH),
        Style::Plain,
    );
    add_span(
        &mut cells,
        entry.facts.origin.label().to_owned(),
        if foreign {
            Style::Foreign
        } else {
            Style::Muted
        },
    );
    let needed = if entry.facts.required_by.len() == 0 {
        "orphan".to_owned()
    } else {
        count(entry.facts.required_by.len())
    };
    add_span(&mut cells, right(needed.as_str(), NEEDED_WIDTH), Style::Plain);
    assert(span_views(cells@) =~= row_views(entry@, marked, now, atime_known));
    cells
}

/// The rows of the package table, in its order.
pub open spec fn table_views(m: app::AppModel) -> Seq<Seq<SpanView>>
    decreases m.order.len(),
{
    if m.order.len() == 0 {
        Seq::empty()
    } else {
        let before = table_views(app::AppModel { order: m.order.drop_last(), ..m });
        let position = m.order.last();
        if position < m.inventory.entries.len() {
            before.push(
                row_views(
                    m.inventory.entries[position as int],
                    m.selection.contains(position),
                    m.inventory.scanned_at,
                    m.inventory.atime_support != model::AtimeSupport::Disabled,
                ),
            )
        } else {
            before
        }
    }
}

/// The rows of the package table.
pub fn package_rows(app: &App) -> (r: Vec<Vec<Span>>)
    ensures
        line_views(r@) == table_views(app@),
{
    let ghost m = app@;
    let atime_known = app.inventory.atime_support.is_meaningful();
    let mut rows: Vec<Vec<Span>> = Vec::new();
    let mut i: usize = 0;
    proof {
        assert(m.order.take(0) =~= Seq::empty());
        assert(line_views(rows@) =~= Seq::empty());
    }
    while i < app.order.len()
        invariant
            i <= app.order.len(),
            m == app@,
            atime_known == (m.inventory.atime_support != model::AtimeSupport::Disabled),
            line_views(rows@) == table_views(
                app::AppModel { order: m.order.take(i as int), ..m },
            ),
        decreases app.order.len() - i,
    {
        let ghost next = app::AppModel { order: m.order.take(i + 1), ..m };
        assert(m.order.take(i + 1).drop_last() =~= m.order.take(i as int));
        let position: usize = app.order[i];
        if position < app.inventory.entries.len() {
            let ghost before = line_views(rows@);
            let row = package_row(
                &app.inventory.entries[position],
                app.selection.contains(&position),
                app.inventory.scanned_at,
                atime_known,
            );
            let ghost added = span_views(row@);
            rows.push(row);
            assert(line_views(rows@) =~= before.push(added));
        }
        i += 1;
    }
    assert(m.order.take(m.order.len() as int) =~= m.order);
    rows
}

/// The title of the package table.
pub fn table_title(app: &App) -> (r: String)
    ensures
        r@ == " "@ + number::decimal(app@.order.len()) + " of "@ + number::decimal(
            app@.inventory.entries.len(),
        ) + " packages "@,
{
    let mut out = concat3(" ", count(app.order.len()).as_str(), " of ");
    out.append(count(app.inventory.entries.len()).as_str());
    out.append(" packages ");
    out
}

// ---------------------------------------------------------------------------
// The detail pane of a package
// ---------------------------------------------------------------------------

/// A label and a value beside it.
pub open spec fn field_view(label: Seq<char>, value: Seq<char>) -> Seq<SpanView> {
    seq![span(number::pad_end(label, 18, ' '), Style::Muted), span(value, Style::Plain)]
}

/// Adds a label and a value beside it.
fn add_field(lines: &mut Vec<Vec<Span>>, label: &str, value: &str)
    ensures
        line_views(final(lines)@) == line_views(old(lines)@).push(field_view(label@, value@)),
{
    let mut spans: Vec<Span> = Vec::new();
    add_span(&mut spans, padded_end(label, 18, ' '), Style::Muted);
    add_span(&mut spans, value.to_owned(), Style::Plain);
    assert(span_views(spans@) =~= field_view(label@, value@));
    lines.push(spans);
    assert(line_views(lines@) =~= line_views(old(lines)@).push(field_view(label@, value@)));
}

/// What a package is.
pub open spec fn identity_views(entry: model::EntryView) -> Seq<Seq<SpanView>> {
    seq![
        line(entry.package.name, Style::Heading),
        line(entry.package.version, Style::Muted),
        blank(),
        line(entry.package.description, Style::Plain),
        blank(),
        field_view("installed size"@, crate::format::bytes_text(entry.package.size)),
        field_view("frees if removed"@, crate::format::bytes_text(entry.facts.reclaimable)),
        field_view("installed on"@, crate::format::date_text(entry.package.install_date)),
        field_view("reason"@, report::reason_text(entry.package.reason)),
        field_view("origin"@, entry.facts.origin.label()),
    ]
}

/// When a package was last used, and what shows it.
pub open spec fn evidence_views(usage: model::UsageView) -> Seq<Seq<SpanView>> {
    match usage {
        model::UsageView::Used { at, witness } => seq![
            field_view("last read"@, crate::format::date_text(Some(at))),
            line("  via /"@ + witness, Style::Muted),
        ],
        model::UsageView::UsedFromHome { at, witness } => seq![
            field_view("last written"@, crate::format::date_text(Some(at))),
            line("  via "@ + witness, Style::Muted),
        ],
        model::UsageView::NeverSinceInstall { .. } => seq![
            line("  not read since it was installed"@, Style::Danger),
        ],
        model::UsageView::NoWitness => seq![
            field_view("last read"@, "no file worth checking"@),
        ],
        model::UsageView::AtimeDisabled => seq![
            field_view("last read"@, "access times are off"@),
        ],
        model::UsageView::NotProbed => seq![
            field_view("last read"@, "not probed — raise --top"@),
        ],
    }
}

/// What goes with a package, what needs it, and what likes to have it.
pub open spec fn relation_views(facts: model::FactsView) -> Seq<Seq<SpanView>> {
    (if facts.frees.len() == 0 {
        Seq::empty()
    } else {
        seq![
            blank(),
            line(
                "also removes "@ + number::decimal(facts.frees.len()) + " dependencies:"@,
                Style::Good,
            ),
            line(split::join(facts.frees, ", "@), Style::Muted),
        ]
    }) + (if facts.required_by.len() == 0 {
        Seq::empty()
    } else {
        seq![
            blank(),
            line(
                "needed by "@ + number::decimal(facts.required_by.len()) + ":"@,
                Style::Warn,
            ),
            line(split::join(facts.required_by, ", "@), Style::Muted),
        ]
    }) + (if facts.optional_for.len() == 0 {
        Seq::empty()
    } else {
        seq![
            blank(),
            line("optional for: "@ + split::join(facts.optional_for, ", "@), Style::Muted),
        ]
    }) + (if facts.protected {
        seq![
            blank(),
            line("part of the base system — press P to mark it anyway"@, Style::Peril),
        ]
    } else {
        Seq::empty()
    })
}

/// The lines of the detail pane of a package.
pub open spec fn package_detail_views(entry: Option<model::EntryView>) -> Seq<Seq<SpanView>> {
    match entry {
        Some(entry) => identity_views(entry) + evidence_views(entry.facts.usage) + relation_views(
            entry.facts,
        ),
        None => seq![line("no package selected"@, Style::Plain)],
    }
}

/// Adds what a package is.
fn add_identity(lines: &mut Vec<Vec<Span>>, entry: &Entry)
    ensures
        line_views(final(lines)@) == line_views(old(lines)@) + identity_views(entry@),
{
    add_line(lines, entry.package.name.clone(), Style::Heading);
    add_line(lines, entry.package.version.clone(), Style::Muted);
    add_blank(lines);
    add_line(lines, entry.package.description.clone(), Style::Plain);
    add_blank(lines);
    add_field(lines, "installed size", crate::format::bytes(entry.package.size).as_str());
    add_field(
        lines,
        "frees if removed",
        crate::format::bytes(entry.facts.reclaimable).as_str(),
    );
    add_field(lines, "installed on", crate::format::date(entry.package.install_date).as_str());
    add_field(lines, "reason", entry.package.reason.label());
    add_field(lines, "origin", entry.facts.origin.label());
    assert(line_views(lines@) =~= line_views(old(lines)@) + identity_views(entry@));
}

/// Adds when a package was last used.
fn add_evidence(lines: &mut Vec<Vec<Span>>, usage: &UsageEvidence)
    ensures
        line_views(final(lines)@) == line_views(old(lines)@) + evidence_views(usage@),
{
    match usage {
        UsageEvidence::Used { at, witness } => {
            add_field(lines, "last read", crate::format::date(Some(*at)).as_str());
            add_line(lines, concat2("  via /", witness.as_str()), Style::Muted);
        },
        UsageEvidence::UsedFromHome { at, witness } => {
            add_field(lines, "last written", crate::format::date(Some(*at)).as_str());
            add_line(lines, concat2("  via ", witness.as_str()), Style::Muted);
        },
        UsageEvidence::NeverSinceInstall { at: _ } => {
            add_line(lines, "  not read since it was installed".to_owned(), Style::Danger);
        },
        UsageEvidence::NoWitness => {
            add_field(lines, "last read", "no file worth checking");
        },
        UsageEvidence::AtimeDisabled => {
            add_field(lines, "last read", "access times are off");
        },
        UsageEvidence::NotProbed => {
            add_field(lines, "last read", "not probed — raise --top");
        },
    }
    assert(line_views(lines@) =~= line_views(old(lines)@) + evidence_views(usage@));
}

/// Adds what goes with a package, what needs it, and what likes to have it.
fn add_relations(lines: &mut Vec<Vec<Span>>, facts: &model::Facts)
    ensures
        line_views(final(lines)@) == line_views(old(lines)@) + relation_views(facts@),
{
    let ghost head = line_views(lines@);
    let ghost mut swept = Seq::<Seq<SpanView>>::empty();
    let ghost mut needed = Seq::<Seq<SpanView>>::empty();
    let ghost mut liked = Seq::<Seq<SpanView>>::empty();
    if facts.frees.len() > 0 {
        add_blank(lines);
        add_line(
            lines,
            concat3("also removes ", count(facts.frees.len()).as_str(), " dependencies:"),
            Style::Good,
        );
        add_line(lines, joined(&facts.frees, ", "), Style::Muted);
        proof {
            swept = line_views(lines@).skip(head.len() as int);
        }
    }
    assert(line_views(lines@) =~= head + swept);
    if facts.required_by.len() > 0 {
        add_blank(lines);
        add_line(
            lines,
            concat3("needed by ", count(facts.required_by.len()).as_str(), ":"),
            Style::Warn,
        );
        add_line(lines, joined(&facts.required_by, ", "), Style::Muted);
        proof {
            needed = line_views(lines@).skip((head + swept).len() as int);
        }
    }
    assert(line_views(lines@) =~= head + swept + needed);
    if facts.optional_for.len() > 0 {
        add_blank(lines);
        add_line(
            lines,
            concat2("optional for: ", joined(&facts.optional_for, ", ").as_str()),
            Style::Muted,
        );
        proof {
            liked = line_views(lines@).skip((head + swept + needed).len() as int);
        }
    }
    assert(line_views(lines@) =~= head + swept + needed + liked);
    if facts.protected {
        add_blank(lines);
        add_line(
            lines,
            "part of the base system — press P to mark it anyway".to_owned(),
            Style::Peril,
        );
    }
    assert(line_views(lines@) =~= head + relation_views(facts@));
}

/// The view of an optional entry.
pub open spec fn entry_view(entry: Option<&Entry>) -> Option<model::EntryView> {
    match entry {
        Some(entry) => Some(entry@),
        None => None,
    }
}

/// The detail pane for the selected package.
pub fn package_detail(entry: Option<&Entry>) -> (r: Vec<Vec<Span>>)
    ensures
        line_views(r@) == package_detail_views(entry_view(entry)),
{
    let mut lines: Vec<Vec<Span>> = Vec::new();
    assert(line_views(lines@) =~= Seq::empty());
    match entry {
        Some(entry) => {
            add_identity(&mut lines, entry);
            add_evidence(&mut lines, &entry.facts.usage);
            add_relations(&mut lines, &entry.facts);
        },
        None => {
            add_line(&mut lines, "no package selected".to_owned(), Style::Plain);
        },
    }
    assert(line_views(lines@) =~= package_detail_views(entry_view(entry)));
    lines
}

// ---------------------------------------------------------------------------
// The reclaim tab
// ---------------------------------------------------------------------------

/// The colour for a safety level.
pub open spec fn care_style(safety: Safety) -> Style {
    match safety {
        Safety::Safe => Style::Good,
        Safety::Review => Style::Warn,
        Safety::Careful => Style::Danger,
    }
}

/// Colour for a safety level.
pub fn safety_style(safety: Safety) -> (r: Style)
    ensures
        r == care_style(safety),
{
    match safety {
        Safety::Safe => Style::Good,
        Safety::Review => Style::Warn,
        Safety::Careful => Style::Danger,
    }
}

/// The headings of the reclaim table.
pub fn target_headings() -> (r: Vec<Span>)
    ensures
        span_views(r@) == seq![
            span("size"@, Style::Heading),
            span("safety"@, Style::Heading),
            span("what"@, Style::Heading),
            span("items"@, Style::Heading),
        ],
{
    let mut cells: Vec<Span> = Vec::new();
    add_span(&mut cells, "size".to_owned(), Style::Heading);
    add_span(&mut cells, "safety".to_owned(), Style::Heading);
    add_span(&mut cells, "what".to_owned(), Style::Heading);
    add_span(&mut cells, "items".to_owned(), Style::Heading);
    cells
}

/// The cells of a row of the reclaim table.
pub open spec fn target_row_views(target: janitor::TargetView) -> Seq<SpanView> {
    seq![
        span(
            number::pad_start(
                match target.bytes {
                    Some(bytes) => crate::format::bytes_text(bytes),
                    None => "?"@,
                },
                10,
                ' ',
            ),
            Style::Best,
        ),
        span(target.safety.label_text(), care_style(target.safety)),
        span(target.title, Style::Plain),
        span(number::pad_start(number::decimal(target.items as nat), 7, ' '), Style::Muted),
    ]
}

/// One row of the reclaim table.
pub fn target_row(target: &Target) -> (r: Vec<Span>)
    ensures
        span_views(r@) == target_row_views(target@),
{
    let size = match target.bytes {
        Some(bytes) => crate::format::bytes(bytes),
        None => "?".to_owned(),
    };
    let mut cells: Vec<Span> = Vec::new();
    add_span(&mut cells, right(size.as_str(), 10), Style::Best);
    add_span(&mut cells, target.safety.label().to_owned(), safety_style(target.safety));
    add_span(&mut cells, target.title.clone(), Style::Plain);
    add_span(&mut cells, right(count(target.items).as_str(), 7), Style::Muted);
    assert(span_views(cells@) =~= target_row_views(target@));
    cells
}

/// How a target is reclaimed.
pub open spec fn reclaim_views(reclaim: janitor::ReclaimView) -> Seq<Seq<SpanView>> {
    match reclaim {
        janitor::ReclaimView::Run { command } => seq![
            line("press Enter to run:"@, Style::Good),
            line(command.shell(), Style::Warn),
        ],
        janitor::ReclaimView::Paths { paths, needs_root } => {
            let shown = scan::first_of(paths, 4);
            seq![
                line(
                    "press Enter to delete "@ + number::decimal(paths.len()) + " path(s) "@ + (
                    if needs_root {
                        "as root"@
                    } else {
                        "as you"@
                    }) + ":"@,
                    Style::Good,
                ),
            ] + Seq::new(shown.len(), |i: int| line("  "@ + shown[i], Style::Muted))
        },
        janitor::ReclaimView::Handoff { hint } => seq![
            line("handled on the "@ + hint, Style::Muted),
        ],
        janitor::ReclaimView::Advice { text } => seq![line(text, Style::Muted)],
    }
}

/// The lines of the detail pane of a reclaim target.
pub open spec fn target_detail_views(target: Option<janitor::TargetView>) -> Seq<Seq<SpanView>> {
    match target {
        Some(target) => seq![
            line(target.title, Style::Heading),
            line(target.location, Style::Muted),
            blank(),
            line(target.detail, Style::Plain),
            blank(),
        ] + reclaim_views(target.reclaim),
        None => seq![line("Nothing to reclaim outside the package set."@, Style::Plain)],
    }
}

/// Adds how a target is reclaimed.
fn add_reclaim(lines: &mut Vec<Vec<Span>>, reclaim: &Reclaim)
    ensures
        line_views(final(lines)@) == line_views(old(lines)@) + reclaim_views(reclaim@),
{
    let ghost before = line_views(lines@);
    match reclaim {
        Reclaim::Run { command } => {
            add_line(lines, "press Enter to run:".to_owned(), Style::Good);
            add_line(lines, command.to_shell(), Style::Warn);
        },
        Reclaim::Paths { paths, needs_root } => {
            let ghost all = text::texts(paths@);
            let ghost shown = scan::first_of(all, 4);
            let ghost listed = Seq::new(shown.len(), |i: int| line("  "@ + shown[i], Style::Muted));
            let mut head = concat3("press Enter to delete ", count(paths.len()).as_str(), " path(s) ");
            head.append(if *needs_root {
                "as root"
            } else {
                "as you"
            });
            head.append(":");
            add_line(lines, head, Style::Good);
            let ghost so_far = line_views(lines@);
            let mut i: usize = 0;
            assert(so_far + listed.take(0) =~= so_far);
            while i < paths.len() && i < 4
                invariant
                    i <= paths.len(),
                    i <= 4,
                    all == text::texts(paths@),
                    shown == scan::first_of(all, 4),
                    listed == Seq::new(
                        shown.len(),
                        |i: int| line("  "@ + shown[i], Style::Muted),
                    ),
                    line_views(lines@) == so_far + listed.take(i as int),
                decreases paths.len() - i,
            {
                assert(shown[i as int] == paths@[i as int]@);
                add_line(lines, concat2("  ", paths[i].as_str()), Style::Muted);
                assert(so_far + listed.take(i + 1) =~= (so_far + listed.take(i as int)).push(
                    listed[i as int],
                ));
                i += 1;
            }
            assert(listed.take(i as int) =~= listed);
        },
        Reclaim::Handoff { hint } => {
            add_line(lines, concat2("handled on the ", hint.as_str()), Style::Muted);
        },
        Reclaim::Advice { text } => {
            add_line(lines, text.clone(), Style::Muted);
        },
    }
    assert(line_views(lines@) =~= before + reclaim_views(reclaim@));
}

/// The view of an optional target.
pub open spec fn target_view(target: Option<&Target>) -> Option<janitor::TargetView> {
    match target {
        Some(target) => Some(target@),
        None => None,
    }
}

/// The detail pane for the selected reclaim target.
pub fn target_detail(target: Option<&Target>) -> (r: Vec<Vec<Span>>)
    ensures
        line_views(r@) == target_detail_views(target_view(target)),
{
    let mut lines: Vec<Vec<Span>> = Vec::new();
    assert(line_views(lines@) =~= Seq::empty());
    match target {
        Some(target) => {
            add_line(&mut lines, target.title.clone(), Style::Heading);
            add_line(&mut lines, target.location.clone(), Style::Muted);
            add_blank(&mut lines);
            add_line(&mut lines, target.detail.clone(), Style::Plain);
            add_blank(&mut lines);
            add_reclaim(&mut lines, &target.reclaim);
        },
        None => {
            add_line(
                &mut lines,
                "Nothing to reclaim outside the package set.".to_owned(),
                Style::Plain,
            );
        },
    }
    assert(line_views(lines@) =~= target_detail_views(target_view(target)));
    lines
}

// ---------------------------------------------------------------------------
// The header and the status lines
// ---------------------------------------------------------------------------

/// The place of a tab in the tab strip.
pub fn tab_index(tab: Tab) -> (r: usize)
    ensures
        r == (match tab {
            Tab::Packages => 0usize,
            Tab::Janitor => 1usize,
        }),
{
    match tab {
        Tab::Packages => 0,
        Tab::Janitor => 1,
    }
}

/// The headline figures: what is installed, what could be reclaimed, what is
/// marked, and whether nothing will be executed.
pub open spec fn header_views(m: app::AppModel) -> Seq<SpanView> {
    let marked = m.plan().bytes;
    seq![
        span("installed "@, Style::Muted),
        span(
            crate::format::bytes_text(number::saturated(model::size_sum(m.inventory.entries))),
            Style::Plain,
        ),
        span("   reclaimable "@, Style::Muted),
        span(
            crate::format::bytes_text(number::saturated(janitor::known_sum(m.inventory.targets))),
            Style::Good,
        ),
    ] + (if marked > 0 {
        seq![
            span("   marked "@, Style::Muted),
            span(
                crate::format::bytes_text(marked) + " ("@ + number::decimal(m.selection.len())
                    + ")"@,
                Style::Alert,
            ),
        ]
    } else {
        Seq::empty()
    }) + (if m.dry_run {
        seq![span("   DRY RUN"@, Style::Peril)]
    } else {
        Seq::empty()
    })
}

/// The headline figures.
pub fn header_spans(app: &App) -> (r: Vec<Span>)
    ensures
        span_views(r@) == header_views(app@),
{
    let marked: u64 = app.selection_bytes();
    let mut spans: Vec<Span> = Vec::new();
    add_span(&mut spans, "installed ".to_owned(), Style::Muted);
    add_span(&mut spans, crate::format::bytes(app.inventory.total_size()), Style::Plain);
    add_span(&mut spans, "   reclaimable ".to_owned(), Style::Muted);
    add_span(
        &mut spans,
        crate::format::bytes(known_total(&app.inventory.targets)),
        Style::Good,
    );
    let ghost head = span_views(spans@);
    let ghost mut figures = Seq::<SpanView>::empty();
    if marked > 0 {
        add_span(&mut spans, "   marked ".to_owned(), Style::Muted);
        let mut text = concat3(
            crate::format::bytes(marked).as_str(),
            " (",
            count(app.selection.len()).as_str(),
        );
        text.append(")");
        add_span(&mut spans, text, Style::Alert);
        proof {
            figures = span_views(spans@).skip(head.len() as int);
        }
    }
    assert(span_views(spans@) =~= head + figures);
    if app.dry_run {
        add_span(&mut spans, "   DRY RUN".to_owned(), Style::Peril);
    }
    assert(span_views(spans@) =~= header_views(app@));
    spans
}

/// The filter bar label of a toggle, key first.
pub open spec fn bar_label(toggle: Toggle) -> Seq<char> {
    seq![toggle.key_char()] + " "@ + toggle.label_text()
}

/// The filter bar label, key first.
pub fn toggle_label(toggle: Toggle) -> (r: String)
    ensures
        r@ == bar_label(toggle),
{
    let mut out = String::new();
    out.push(toggle.key());
    out.append(" ");
    out.append(toggle.label());
    assert(out@ =~= bar_label(toggle));
    out
}

/// A toggle in the filter bar, and the gap behind it.
pub open spec fn toggle_views(view: filter::ViewModel, toggle: Toggle) -> Seq<SpanView> {
    seq![
        span(
            " "@ + bar_label(toggle) + " "@,
            if view.toggles.contains(toggle) {
                Style::Active
            } else {
                Style::Muted
            },
        ),
        span(" "@, Style::Plain),
    ]
}

/// The filter bar: the search field while it has focus, and otherwise the
/// filters, the query, and how the table is sorted.
pub open spec fn bar_views(m: app::AppModel) -> Seq<SpanView> {
    if m.searching {
        seq![
            span("search: "@, Style::Heading),
            span(m.view.query + "▏"@, Style::Bold),
            span(
                "  matching "@ + (if m.view.match_descriptions {
                    "name+description"@
                } else {
                    "name"@
                }),
                Style::Muted,
            ),
        ]
    } else {
        toggle_views(m.view, Toggle::Orphans) + toggle_views(m.view, Toggle::Foreign)
            + toggle_views(m.view, Toggle::Explicit) + toggle_views(m.view, Toggle::NeverUsed)
            + toggle_views(m.view, Toggle::Stale) + (if m.view.query.len() == 0 {
            Seq::empty()
        } else {
            seq![span(" /"@ + m.view.query + " "@, Style::Query), span(" "@, Style::Plain)]
        }) + seq![
            span(
                "sort:"@ + m.view.sort.label_text() + (if m.view.descending {
                    "↓"@
                } else {
                    "↑"@
                }),
                Style::Muted,
            ),
            span("   ? help   space mark   Enter apply   q quit"@, Style::Muted),
        ]
    }
}

/// Adds a toggle to the filter bar.
fn add_toggle(spans: &mut Vec<Span>, view: &filter::View, toggle: Toggle)
    ensures
        span_views(final(spans)@) == span_views(old(spans)@) + toggle_views(view@, toggle),
{
    add_span(
        spans,
        concat3(" ", toggle_label(toggle).as_str(), " "),
        if view.is_active(toggle) {
            Style::Active
        } else {
            Style::Muted
        },
    );
    add_span(spans, " ".to_owned(), Style::Plain);
    assert(span_views(spans@) =~= span_views(old(spans)@) + toggle_views(view@, toggle));
}

/// The filter bar.
pub fn status_spans(app: &App) -> (r: Vec<Span>)
    ensures
        span_views(r@) == bar_views(app@),
{
    let mut spans: Vec<Span> = Vec::new();
    assert(span_views(spans@) =~= Seq::empty());
    if app.searching {
        add_span(&mut spans, "search: ".to_owned(), Style::Heading);
        add_span(&mut spans, concat2(app.view.query.as_str(), "▏"), Style::Bold);
        add_span(&mut spans, concat2("  matching ", app.view.search_scope()), Style::Muted);
        assert(span_views(spans@) =~= bar_views(app@));
        return spans;
    }
    add_toggle(&mut spans, &app.view, Toggle::Orphans);
    add_toggle(&mut spans, &app.view, Toggle::Foreign);
    add_toggle(&mut spans, &app.view, Toggle::Explicit);
    add_toggle(&mut spans, &app.view, Toggle::NeverUsed);
    add_toggle(&mut spans, &app.view, Toggle::Stale);
    let ghost head = span_views(spans@);
    let ghost mut asked = Seq::<SpanView>::empty();
    if !app.view.query.as_str().is_empty() {
        add_span(&mut spans, concat3(" /", app.view.query.as_str(), " "), Style::Query);
        add_span(&mut spans, " ".to_owned(), Style::Plain);
        proof {
            asked = span_views(spans@).skip(head.len() as int);
        }
    }
    assert(span_views(spans@) =~= head + asked);
    add_span(
        &mut spans,
        concat3(
            "sort:",
            app.view.sort.label(),
            if app.view.descending {
                "↓"
            } else {
                "↑"
            },
        ),
        Style::Muted,
    );
    add_span(
        &mut spans,
        "   ? help   space mark   Enter apply   q quit".to_owned(),
        Style::Muted,
    );
    proof {
        assert(head =~= toggle_views(app@.view, Toggle::Orphans) + toggle_views(
            app@.view,
            Toggle::Foreign,
        ) + toggle_views(app@.view, Toggle::Explicit) + toggle_views(app@.view, Toggle::NeverUsed)
            + toggle_views(app@.view, Toggle::Stale));
        assert(span_views(spans@) =~= bar_views(app@));
    }
    spans
}

// ---------------------------------------------------------------------------
// Modals
// ---------------------------------------------------------------------------

/// The text of the help modal.
pub const HELP: &'static str = "\
MOVE      j / k / ↑ / ↓     one row
          Ctrl-D / Ctrl-U   one screen
          g / G             first / last row
          Tab               switch between Packages and Reclaim

CHOOSE    space             mark the package under the cursor
          P                 mark it even though it is part of base
          c                 unmark everything
          Enter             review and run what is marked

FILTER    o                 orphans: installed as a dependency, needed by nothing
          a                 AUR and locally built packages
          e                 explicitly installed packages
          n                 never read since installation
          u                 not read within the staleness window
          p                 hide packages the base system depends on
          /                 filter by package name
          D                 search descriptions as well as names
          Esc               clear every filter

SORT      s                 next column          S   reverse
          1 name   2 size   3 frees   4 last used   5 added   6 needed by

OTHER     r                 re-scan the system
          ?                 this list
          q                 quit

WHAT THE COLUMNS MEAN
  size        what the package's own files occupy
  frees       what removing it actually recovers, including dependencies
              that nothing else keeps alive. Green means it drags others
              along, and that is the number worth sorting by.
  last used   the newest access time across the package's binaries and
              libraries. \"never\" means no file has been read since the day
              it was installed.
  needed by   how many installed packages hard-depend on it.

Removals are handed to `pacman -Rns`, which runs its own checks and asks
for its own confirmation. pacpurge never deletes package files itself.
";

/// What a modal shows.
#[derive(Debug, PartialEq, Eq)]
pub struct Modal {
    /// Its title.
    pub title: String,
    /// Its lines.
    pub lines: Vec<String>,
    /// Whether it is drawn as a warning.
    pub danger: bool,
    /// What the keys do.
    pub footer: String,
}

/// The view of a [`Modal`].
#[verifier::ext_equal]
pub struct ModalView {
    /// See [`Modal::title`].
    pub title: Seq<char>,
    /// See [`Modal::lines`].
    pub lines: Seq<Seq<char>>,
    /// See [`Modal::danger`].
    pub danger: bool,
    /// See [`Modal::footer`].
    pub footer: Seq<char>,
}

impl View for Modal {
    type V = ModalView;

    open spec fn view(&self) -> ModalView {
        ModalView {
            title: self.title@,
            lines: text::texts(self.lines@),
            danger: self.danger,
            footer: self.footer@,
        }
    }
}

/// What is shown of an overlay.
pub open spec fn modal_of(overlay: app::OverlayView) -> Option<ModalView> {
    match overlay {
        app::OverlayView::Closed => None,
        app::OverlayView::Help => Some(
            ModalView {
                title: " keys "@,
                lines: split::lines(HELP@),
                danger: false,
                footer: "any key to close"@,
            },
        ),
        app::OverlayView::Notice { title, lines } => Some(
            ModalView {
                title: " "@ + title + " "@,
                lines,
                danger: true,
                footer: "any key to close"@,
            },
        ),
        app::OverlayView::Confirm { title, lines, danger, .. } => Some(
            ModalView {
                title: " "@ + title + " "@,
                lines,
                danger,
                footer: "y to run   Esc to cancel"@,
            },
        ),
        app::OverlayView::Offer { title, lines, .. } => Some(
            ModalView {
                title: " "@ + title + " "@,
                lines,
                danger: false,
                footer: "y to mark them   Esc to cancel"@,
            },
        ),
    }
}

/// What to show of whichever modal is open, if any.
pub fn modal(overlay: &Overlay) -> (r: Option<Modal>)
    ensures
        match r {
            Some(modal) => modal_of(overlay@) == Some(modal@),
            None => modal_of(overlay@) is None,
        },
{
    match overlay {
        Overlay::Closed => None,
        Overlay::Help => Some(
            Modal {
                title: " keys ".to_owned(),
                lines: split_lines(HELP),
                danger: false,
                footer: "any key to close".to_owned(),
            },
        ),
        Overlay::Notice { title, lines } => Some(
            Modal {
                title: concat3(" ", title.as_str(), " "),
                lines: copy_texts(lines),
                danger: true,
                footer: "any key to close".to_owned(),
            },
        ),
        Overlay::Confirm { title, lines, steps: _, danger } => Some(
            Modal {
                title: concat3(" ", title.as_str(), " "),
                lines: copy_texts(lines),
                danger: *danger,
                footer: "y to run   Esc to cancel".to_owned(),
            },
        ),
        Overlay::Offer { title, lines, add: _ } => Some(
            Modal {
                title: concat3(" ", title.as_str(), " "),
                lines: copy_texts(lines),
                danger: false,
                footer: "y to mark them   Esc to cancel".to_owned(),
            },
        ),
    }
}

// ---------------------------------------------------------------------------
// Laws
// ---------------------------------------------------------------------------

/// A cell that fits its column fills it exactly, so that nothing is pushed off
/// its end.
pub proof fn cells_fill_their_column(value: Seq<char>, width: nat)
    requires
        value.len() <= width,
    ensures
        number::pad_start(value, width, ' ').len() == width,
        number::pad_start(value, width, ' ').skip(width - value.len()) == value,
{
    let padded = number::pad_start(value, width, ' ');
    assert(padded.skip(width - value.len()) =~= value);
}

/// A size fits its column, up to a pebibyte.
pub proof fn sizes_fit_their_column(value: u64)
    requires
        value < 0x4_0000_0000_0000,
    ensures
        crate::format::bytes_text(value).len() <= SIZE_WIDTH,
{
    reveal_strlit(".");
    reveal_strlit(" ");
    reveal_strlit("B");
    reveal_strlit("KiB");
    reveal_strlit("MiB");
    reveal_strlit("GiB");
    reveal_strlit("TiB");
    let (scale, _) = crate::format::unit_of(value);
    let whole = crate::format::whole_units(value);
    let tenths = crate::format::unit_tenths(value);
    assert(whole < 1024);
    assert(tenths < 10);
    reveal_with_fuel(number::decimal, 5);
    assert(number::decimal(whole).len() <= 4);
    assert(number::decimal(tenths).len() == 1);
    assert(scale == 1 ==> number::decimal(value as nat).len() <= 4);
}

/// Every filter has its place in the bar, and shows whether it is on.
pub proof fn the_bar_shows_every_filter(m: app::AppModel, toggle: Toggle)
    requires
        !m.searching,
    ensures
        exists|i: int|
            0 <= i < bar_views(m).len() && #[trigger] bar_views(m)[i] == toggle_views(
                m.view,
                toggle,
            )[0],
{
    let i = match toggle {
        Toggle::Orphans => 0int,
        Toggle::Foreign => 2,
        Toggle::Explicit => 4,
        Toggle::NeverUsed => 6,
        Toggle::Stale => 8,
    };
    assert(bar_views(m)[i] == toggle_views(m.view, toggle)[0]);
}

} // verus!
