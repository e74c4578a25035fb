//! Where the floating window stands: small while it is collapsed, large while it is expanded,
//! and back where it was once it collapses, unless it was dragged away.
use vstd::prelude::*;

use crate::double::{held_within, scaled_i32, Double};

verus! {

/// The edge of the collapsed window, in logical pixels.
pub const COLLAPSED_SIZE: u32 = 80;

/// The edge of the expanded window, in logical pixels.
pub const EXPANDED_SIZE: u32 = 356;

/// The gap between a new window and the right edge of the screen, in physical pixels.
pub const RIGHT_GAP: i32 = 36;

/// The gap between a new window and the upper edge of the screen, in physical pixels.
pub const UPPER_GAP: i32 = 116;

/// A place on the desktop, in physical pixels.
#[derive(Debug, Clone, Copy, PartialEq, Eq, Structural)]
pub struct Position {
    pub x: i32,
    pub y: i32,
}

/// What is known of the window's place.
#[derive(Debug, Clone, Copy)]
pub struct WindowGeometry {
    /// Where the window stood when it was last expanded.
    pub collapsed_anchor: Option<Position>,
    /// Whether the window is expanded.
    pub expanded: bool,
    /// Whether the window was dragged since it was expanded.
    pub expanded_dragged: bool,
    /// Where the window was put to be expanded, where that is not where it stood.
    pub programmatic_expanded_position: Option<Position>,
}

/// The geometry right after the window is expanded.
pub open spec fn after_expand(anchor: Position, position: Position) -> WindowGeometry {
    WindowGeometry {
        collapsed_anchor: Some(anchor),
        expanded: true,
        expanded_dragged: false,
        programmatic_expanded_position: if position != anchor {
            Some(position)
        } else {
            None
        },
    }
}

/// The geometry after a drag: it counts while the window is expanded.
pub open spec fn after_drag(geometry: WindowGeometry) -> WindowGeometry {
    if geometry.expanded {
        WindowGeometry {
            expanded_dragged: true,
            programmatic_expanded_position: None,
            ..geometry
        }
    } else {
        geometry
    }
}

/// The geometry after the window moved to a place: a drag, unless it is a place to which the
/// window was put.
pub open spec fn after_move(geometry: WindowGeometry, position: Position) -> WindowGeometry {
    if geometry.programmatic_expanded_position == Some(position) || geometry.collapsed_anchor
        == Some(position) {
        geometry
    } else {
        after_drag(geometry)
    }
}

/// The geometry after the window moved to each of these places in turn.
pub open spec fn after_moves(geometry: WindowGeometry, moves: Seq<Position>) -> WindowGeometry
    decreases moves.len(),
{
    if moves.len() == 0 {
        geometry
    } else {
        after_move(after_moves(geometry, moves.drop_last()), moves.last())
    }
}

/// The geometry right after the window is collapsed.
pub open spec fn after_collapse(geometry: WindowGeometry) -> WindowGeometry {
    WindowGeometry {
        collapsed_anchor: geometry.collapsed_anchor,
        expanded: false,
        expanded_dragged: false,
        programmatic_expanded_position: None,
    }
}

/// What a collapse says: whether the window goes back, and where it stood.
pub open spec fn collapse_answer(geometry: WindowGeometry) -> (bool, Option<Position>) {
    (!geometry.expanded_dragged, geometry.collapsed_anchor)
}

impl WindowGeometry {
    /// A window that is expanded stood somewhere before; one that is collapsed was neither put
    /// anywhere nor dragged; and one that was dragged is no longer where it was put.
    pub open spec fn well_formed(self) -> bool {
        &&& self.expanded ==> self.collapsed_anchor is Some
        &&& !self.expanded ==> !self.expanded_dragged
        &&& !self.expanded || self.expanded_dragged ==> self.programmatic_expanded_position is None
        &&& self.programmatic_expanded_position is Some ==> self.programmatic_expanded_position
            != self.collapsed_anchor
    }

    /// Records that the window is expanded: where it stood and where it is put.
    pub fn begin_expand(&mut self, collapsed_anchor: Position, expanded_position: Position)
        ensures
            *final(self) == after_expand(collapsed_anchor, expanded_position),
            final(self).collapsed_anchor == Some(collapsed_anchor),
            final(self).expanded,
            !final(self).expanded_dragged,
            expanded_position == collapsed_anchor ==> final(self).programmatic_expanded_position is None,
            expanded_position != collapsed_anchor ==> final(self).programmatic_expanded_position
                == Some(expanded_position),
            final(self).well_formed(),
    {
        self.collapsed_anchor = Some(collapsed_anchor);
        self.expanded = true;
        self.expanded_dragged = false;
        self.programmatic_expanded_position = if expanded_position != collapsed_anchor {
            Some(expanded_position)
        } else {
            None
        };
    }

    /// Records that the window moved.
    pub fn record_move(&mut self, position: Position)
        ensures
            *final(self) == after_move(*old(self), position),
            !old(self).expanded ==> *final(self) == *old(self),
            old(self).programmatic_expanded_position == Some(position) ==> *final(self)
                == *old(self),
            old(self).collapsed_anchor == Some(position) ==> *final(self) == *old(self),
            old(self).expanded && old(self).programmatic_expanded_position != Some(position) && old(self).collapsed_anchor != Some(position) ==> final(self).expanded_dragged && final(self).programmatic_expanded_position is None,
            final(self).expanded == old(self).expanded,
            final(self).collapsed_anchor == old(self).collapsed_anchor,
            old(self).well_formed() ==> final(self).well_formed(),
    {
        if !self.expanded {
            return;
        }
        if is_at(self.programmatic_expanded_position, position) {
            return;
        }
        if !is_at(self.collapsed_anchor, position) {
            self.expanded_dragged = true;
            self.programmatic_expanded_position = None;
        }
    }

    /// Records that the user drags the window.
    pub fn mark_expanded_drag(&mut self)
        ensures
            *final(self) == after_drag(*old(self)),
            !old(self).expanded ==> *final(self) == *old(self),
            old(self).expanded ==> final(self).expanded_dragged && final(self).programmatic_expanded_position is None,
            final(self).expanded == old(self).expanded,
            final(self).collapsed_anchor == old(self).collapsed_anchor,
            old(self).well_formed() ==> final(self).well_formed(),
    {
        if self.expanded {
            self.expanded_dragged = true;
            self.programmatic_expanded_position = None;
        }
    }

    /// Records that the window is collapsed, and says whether it goes back and where it stood.
    pub fn begin_collapse(&mut self) -> (answer: (bool, Option<Position>))
        ensures
            answer == collapse_answer(*old(self)),
            answer.0 == !old(self).expanded_dragged,
            answer.1 == old(self).collapsed_anchor,
            *final(self) == after_collapse(*old(self)),
            !final(self).expanded,
            !final(self).expanded_dragged,
            final(self).programmatic_expanded_position is None,
            final(self).collapsed_anchor == old(self).collapsed_anchor,
            final(self).well_formed(),
    {
        let should_restore_anchor: bool = !self.expanded_dragged;
        let anchor: Option<Position> = self.collapsed_anchor;
        self.expanded = false;
        self.expanded_dragged = false;
        self.programmatic_expanded_position = None;
        (should_restore_anchor, anchor)
    }

    /// Records that the window is collapsed, and gives the place to which it goes back, where
    /// it does.
    pub fn collapse(&mut self) -> (target: Option<Position>)
        ensures
            target == if old(self).expanded_dragged {
                None
            } else {
                old(self).collapsed_anchor
            },
            *final(self) == after_collapse(*old(self)),
            final(self).well_formed(),
    {
        let (should_restore_anchor, anchor) = self.begin_collapse();
        if should_restore_anchor {
            anchor
        } else {
            None
        }
    }
}

impl Default for WindowGeometry {
    /// A window that is collapsed and was never expanded.
    fn default() -> (geometry: WindowGeometry)
        ensures
            geometry.well_formed(),
            !geometry.expanded,
            geometry.collapsed_anchor is None,
            !geometry.expanded_dragged,
            geometry.programmatic_expanded_position is None,
    {
        WindowGeometry {
            collapsed_anchor: None,
            expanded: false,
            expanded_dragged: false,
            programmatic_expanded_position: None,
        }
    }
}

/// Whether a place is the one that is noted.
fn is_at(noted: Option<Position>, position: Position) -> (answer: bool)
    ensures
        answer == (noted == Some(position)),
{
    match noted {
        Some(place) => place == position,
        None => false,
    }
}

/// A window that moves nowhere but to where it stood and to where it was put counts as not
/// dragged and goes back when it collapses; a move to any other place is a drag, after which
/// the window stays where it is.
pub proof fn law_only_other_places_are_drags(
    anchor: Position,
    position: Position,
    moves: Seq<Position>,
)
    ensures
        ({
            let geometry = after_moves(after_expand(anchor, position), moves);
            let dragged = exists|i: int|
                0 <= i < moves.len() && #[trigger] moves[i] != anchor && moves[i] != position;
            collapse_answer(geometry) == (!dragged, Some(anchor))
        }),
{
    lemma_moves_after_expand(anchor, position, moves);
}

/// What is known of the window after it was expanded and moved.
proof fn lemma_moves_after_expand(anchor: Position, position: Position, moves: Seq<Position>)
    ensures
        ({
            let geometry = after_moves(after_expand(anchor, position), moves);
            let dragged = exists|i: int|
                0 <= i < moves.len() && #[trigger] moves[i] != anchor && moves[i] != position;
            &&& geometry.expanded
            &&& geometry.collapsed_anchor == Some(anchor)
            &&& geometry.expanded_dragged == dragged
            &&& !dragged ==> geometry == after_expand(anchor, position)
        }),
    decreases moves.len(),
{
    if moves.len() > 0 {
        let before: Seq<Position> = moves.drop_last();
        lemma_moves_after_expand(anchor, position, before);
        let last: int = moves.len() - 1;
        if exists|i: int|
            0 <= i < before.len() && #[trigger] before[i] != anchor && before[i] != position {
            let i: int = choose|i: int|
                0 <= i < before.len() && #[trigger] before[i] != anchor && before[i] != position;
            assert(moves[i] != anchor && moves[i] != position);
        } else if moves[last] == anchor || moves[last] == position {
            assert forall|i: int| 0 <= i < moves.len() implies #[trigger] moves[i] == anchor
                || moves[i] == position by {
                if i < last {
                    assert(before[i] == moves[i]);
                }
            }
        }
    }
}

/// A collapsed window can be moved anywhere without a trace.
pub proof fn law_collapsed_moves_are_ignored(geometry: WindowGeometry, moves: Seq<Position>)
    requires
        !geometry.expanded,
    ensures
        after_moves(geometry, moves) == geometry,
    decreases moves.len(),
{
    if moves.len() > 0 {
        law_collapsed_moves_are_ignored(geometry, moves.drop_last());
    }
}

/// A drag stands until the window collapses: no move takes it back.
pub proof fn law_drag_stands(geometry: WindowGeometry, moves: Seq<Position>)
    requires
        geometry.expanded,
    ensures
        collapse_answer(after_moves(after_drag(geometry), moves)) == (
            false,
            geometry.collapsed_anchor,
        ),
    decreases moves.len(),
{
    lemma_drag_stands(after_drag(geometry), moves);
}

/// Moves leave a window that is expanded and dragged so.
proof fn lemma_drag_stands(geometry: WindowGeometry, moves: Seq<Position>)
    requires
        geometry.expanded,
        geometry.expanded_dragged,
    ensures
        after_moves(geometry, moves).expanded,
        after_moves(geometry, moves).expanded_dragged,
        after_moves(geometry, moves).collapsed_anchor == geometry.collapsed_anchor,
    decreases moves.len(),
{
    if moves.len() > 0 {
        lemma_drag_stands(geometry, moves.drop_last());
    }
}

/// A screen: where it begins, how large it is, and how many physical pixels a logical pixel
/// takes.
#[derive(Debug, Clone, Copy)]
pub struct Screen {
    pub position: Position,
    pub width: u32,
    pub height: u32,
    pub scale: Double,
}

/// A size as the coordinates count it: sizes from 2^31 on are taken for negative ones.
pub open spec fn coordinate(size: u32) -> int {
    if size <= i32::MAX {
        size as int
    } else {
        size - 0x1_0000_0000
    }
}

/// The integers that a coordinate can hold.
pub open spec fn is_coordinate(n: int) -> bool {
    i32::MIN <= n <= i32::MAX
}

/// A size as the coordinates count it.
fn as_coordinate(size: u32) -> (n: i32)
    ensures
        n == coordinate(size),
{
    if size <= i32::MAX as u32 {
        size as i32
    } else {
        (size as i64 - 0x1_0000_0000) as i32
    }
}

/// The place along one side of a screen to which a window of the length `target` is put: as
/// close to `current` as the screen allows, and at its beginning where the window is longer
/// than the screen.
pub open spec fn fitted(current: int, start: int, size: u32, target: int) -> int {
    let last = start + coordinate(size) - target;
    held_within(
        current,
        start,
        if last < start {
            start
        } else {
            last
        },
    )
}

/// Whether the place along one side of a screen can be computed within the coordinates.
pub open spec fn fits(start: int, size: u32, target: int) -> bool {
    is_coordinate(start + coordinate(size)) && is_coordinate(start + coordinate(size) - target)
}

impl Screen {
    /// The edge of the expanded window on this screen, in physical pixels.
    pub open spec fn expanded_edge(self) -> int {
        scaled_i32(EXPANDED_SIZE, self.scale@)
    }

    /// Whether the ends of this screen, and the last places on it for an expanded window, are
    /// coordinates.
    pub open spec fn measurable(self) -> bool {
        &&& fits(self.position.x as int, self.width, self.expanded_edge())
        &&& fits(self.position.y as int, self.height, self.expanded_edge())
    }

    /// Whether the ends of this screen, and the last places on it for an expanded window, are
    /// coordinates.
    fn is_measurable(&self) -> (answer: bool)
        ensures
            answer == self.measurable(),
    {
        let target: i64 = self.scale.scale(EXPANDED_SIZE) as i64;
        let right: i64 = self.position.x as i64 + as_coordinate(self.width) as i64;
        let bottom: i64 = self.position.y as i64 + as_coordinate(self.height) as i64;
        within_coordinates(right) && within_coordinates(right - target) && within_coordinates(
            bottom,
        ) && within_coordinates(bottom - target)
    }
}

/// Whether an integer is a coordinate.
fn within_coordinates(n: i64) -> (answer: bool)
    ensures
        answer == is_coordinate(n as int),
{
    i32::MIN as i64 <= n && n <= i32::MAX as i64
}

/// The place along one side of a screen to which a window of the length `target` is put.
fn fit(current: i32, start: i32, size: u32, target: i32) -> (place: i32)
    requires
        fits(start as int, size, target as int),
    ensures
        place == fitted(current as int, start as int, size, target as int),
{
    let end: i32 = start + as_coordinate(size);
    let last: i32 = if end - target < start {
        start
    } else {
        end - target
    };
    if current < start {
        start
    } else if current > last {
        last
    } else {
        current
    }
}

/// Where a window that stands at `current` is put to be expanded: within its screen, where it
/// is on one.
pub open spec fn expanded_place(current: Position, screen: Option<Screen>) -> (int, int) {
    match screen {
        Some(screen) => (
            fitted(
                current.x as int,
                screen.position.x as int,
                screen.width,
                screen.expanded_edge(),
            ),
            fitted(
                current.y as int,
                screen.position.y as int,
                screen.height,
                screen.expanded_edge(),
            ),
        ),
        None => (current.x as int, current.y as int),
    }
}

/// Where a window that stands at `current` is put to be expanded, where that can be computed
/// within the coordinates.
pub fn expanded_position(current: Position, screen: Option<Screen>) -> (next: Option<Position>)
    ensures
        next is Some <==> (screen matches Some(s) ==> s.measurable()),
        next matches Some(p) ==> (p.x as int, p.y as int) == expanded_place(current, screen),
        screen is None ==> next == Some(current),
{
    match screen {
        Some(screen) => {
            if !screen.is_measurable() {
                return None;
            }
            let target: i32 = screen.scale.scale(EXPANDED_SIZE);
            Some(
                Position {
                    x: fit(current.x, screen.position.x, screen.width, target),
                    y: fit(current.y, screen.position.y, screen.height, target),
                },
            )
        },
        None => Some(current),
    }
}

/// On a screen that is large enough the expanded window is seen whole, and a window that would
/// be seen whole where it stands is not moved.
pub proof fn law_expanded_window_is_seen_whole(current: Position, screen: Screen)
    requires
        screen.measurable(),
        screen.width <= i32::MAX,
        screen.height <= i32::MAX,
        0 <= screen.expanded_edge() <= screen.width,
        screen.expanded_edge() <= screen.height,
    ensures
        ({
            let place = expanded_place(current, Some(screen));
            let left = screen.position.x as int;
            let top = screen.position.y as int;
            let edge = screen.expanded_edge();
            &&& left <= place.0 && place.0 + edge <= left + screen.width
            &&& top <= place.1 && place.1 + edge <= top + screen.height
            &&& left <= current.x && current.x + edge <= left + screen.width ==> place.0 == current.x
            &&& top <= current.y && current.y + edge <= top + screen.height ==> place.1 == current.y
        }),
{
}

/// Where a window of this width first appears on a screen: at the upper right.
pub open spec fn first_place(screen: Screen, window_width: u32) -> (int, int) {
    (
        screen.position.x + coordinate(screen.width) - coordinate(window_width) - RIGHT_GAP,
        screen.position.y + UPPER_GAP,
    )
}

/// Whether the first place on a screen can be computed within the coordinates.
pub open spec fn has_first_place(screen: Screen, window_width: u32) -> bool {
    let right = screen.position.x + coordinate(screen.width);
    &&& is_coordinate(right)
    &&& is_coordinate(right - coordinate(window_width))
    &&& is_coordinate(first_place(screen, window_width).0)
    &&& is_coordinate(first_place(screen, window_width).1)
}

/// Where a window of this width first appears on a screen, where that can be computed within
/// the coordinates.
pub fn first_position(screen: &Screen, window_width: u32) -> (first: Option<Position>)
    ensures
        first is Some <==> has_first_place(*screen, window_width),
        first matches Some(p) ==> (p.x as int, p.y as int) == first_place(*screen, window_width),
{
    let right: i64 = screen.position.x as i64 + as_coordinate(screen.width) as i64;
    let left: i64 = right - as_coordinate(window_width) as i64;
    let x: i64 = left - RIGHT_GAP as i64;
    let y: i64 = screen.position.y as i64 + UPPER_GAP as i64;
    if within_coordinates(right) && within_coordinates(left) && within_coordinates(x)
        && within_coordinates(y) {
        Some(Position { x: x as i32, y: y as i32 })
    } else {
        None
    }
}

/// An expanded window is put within its screen: along each side no place that the screen allows is
/// closer to where the window stood, and on a screen that is too small the window begins where the
/// screen does. `place` is any place that the screen allows.
pub proof fn law_expanded_window_moves_no_further_than_needed(
    current: Position,
    screen: Screen,
    place: int,
)
    ensures
        ({
            let next = expanded_place(current, Some(screen));
            let width = if screen.width < 0x8000_0000 {
                screen.width as int
            } else {
                screen.width - 0x1_0000_0000
            };
            let height = if screen.height < 0x8000_0000 {
                screen.height as int
            } else {
                screen.height - 0x1_0000_0000
            };
            let edge = scaled_i32(356, screen.scale@);
            let left = screen.position.x as int;
            let top = screen.position.y as int;
            &&& next.0 >= left
            &&& next.0 == left || next.0 + edge <= left + width
            &&& edge > width ==> next.0 == left
            &&& left <= place && place + edge <= left + width && place != next.0 ==> (place
                < next.0 <= current.x || place > next.0 >= current.x)
            &&& next.1 >= top
            &&& next.1 == top || next.1 + edge <= top + height
            &&& edge > height ==> next.1 == top
            &&& top <= place && place + edge <= top + height && place != next.1 ==> (place < next.1
                <= current.y || place > next.1 >= current.y)
        }),
{
}

/// Without a screen the window stays where it is.
pub proof fn law_without_a_screen_nothing_moves(current: Position)
    ensures
        expanded_place(current, None) == (current.x as int, current.y as int),
{
}

/// An expanded place is given just where the ends of the screen and the last places on it for the
/// window are coordinates, and it then is one.
pub proof fn law_places_are_coordinates(current: Position, screen: Screen)
    ensures
        screen.measurable() <==> ({
            let width = if screen.width < 0x8000_0000 {
                screen.width as int
            } else {
                screen.width - 0x1_0000_0000
            };
            let height = if screen.height < 0x8000_0000 {
                screen.height as int
            } else {
                screen.height - 0x1_0000_0000
            };
            let edge = scaled_i32(356, screen.scale@);
            &&& -0x8000_0000 <= screen.position.x + width <= 0x7FFF_FFFF
            &&& -0x8000_0000 <= screen.position.x + width - edge <= 0x7FFF_FFFF
            &&& -0x8000_0000 <= screen.position.y + height <= 0x7FFF_FFFF
            &&& -0x8000_0000 <= screen.position.y + height - edge <= 0x7FFF_FFFF
        }),
{
}

/// A new window appears thirty-six pixels from the right edge of its screen and a hundred and
/// sixteen below the upper one.
pub proof fn law_new_window_appears_at_the_upper_right(screen: Screen, window_width: u32)
    ensures
        ({
            let first = first_place(screen, window_width);
            let width = if screen.width < 0x8000_0000 {
                screen.width as int
            } else {
                screen.width - 0x1_0000_0000
            };
            let window = if window_width < 0x8000_0000 {
                window_width as int
            } else {
                window_width - 0x1_0000_0000
            };
            let right = screen.position.x + width;
            &&& first.0 + window + 36 == right
            &&& first.1 == screen.position.y + 116
            &&& has_first_place(screen, window_width) <==> {
                &&& -0x8000_0000 <= right <= 0x7FFF_FFFF
                &&& -0x8000_0000 <= right - window <= 0x7FFF_FFFF
                &&& -0x8000_0000 <= first.0 <= 0x7FFF_FFFF
                &&& first.1 <= 0x7FFF_FFFF
            }
        }),
{
}

/// What is recorded when a window is expanded, moved, dragged and collapsed.
pub proof fn law_what_is_recorded(geometry: WindowGeometry, anchor: Position, position: Position)
    ensures
        after_expand(anchor, position).collapsed_anchor == Some(anchor),
        after_expand(anchor, position).expanded,
        !after_expand(anchor, position).expanded_dragged,
        position != anchor ==> after_expand(anchor, position).programmatic_expanded_position
            == Some(position),
        position == anchor ==> after_expand(anchor, position).programmatic_expanded_position is None,
        after_move(geometry, position).expanded == geometry.expanded,
        after_move(geometry, position).collapsed_anchor == geometry.collapsed_anchor,
        after_move(geometry, position).expanded_dragged <==> geometry.expanded_dragged || (
        geometry.expanded && geometry.collapsed_anchor != Some(position)
            && geometry.programmatic_expanded_position != Some(position)),
        after_drag(geometry).expanded_dragged <==> geometry.expanded_dragged || geometry.expanded,
        after_drag(geometry).expanded == geometry.expanded,
        after_drag(geometry).collapsed_anchor == geometry.collapsed_anchor,
        collapse_answer(geometry).0 <==> !geometry.expanded_dragged,
        collapse_answer(geometry).1 == geometry.collapsed_anchor,
        after_collapse(geometry).collapsed_anchor == geometry.collapsed_anchor,
        !after_collapse(geometry).expanded,
        !after_collapse(geometry).expanded_dragged,
        after_collapse(geometry).programmatic_expanded_position is None,
{
}

/// The windows have the edges of their design.
pub proof fn law_edges_of_the_windows()
    ensures
        COLLAPSED_SIZE == 80,
        EXPANDED_SIZE == 356,
{
}

} // verus!
