use local_quota_widget::double::Double;
use local_quota_widget::geometry::{
    expanded_position, first_position, Position, Screen, WindowGeometry, COLLAPSED_SIZE,
    EXPANDED_SIZE,
};

fn at(x: i32, y: i32) -> Position {
    Position { x, y }
}

fn screen(x: i32, y: i32, width: u32, height: u32, scale: f64) -> Screen {
    Screen {
        position: at(x, y),
        width,
        height,
        scale: Double::from_bits(scale.to_bits()).expect("a finite scale"),
    }
}

#[test]
fn programmatic_expand_move_does_not_count_as_drag() {
    let anchor = at(1500, 200);
    let clamped = at(1200, 200);
    let mut geometry = WindowGeometry::default();

    geometry.begin_expand(anchor, clamped);
    geometry.record_move(clamped);

    assert!(!geometry.expanded_dragged);
    assert_eq!(geometry.begin_collapse(), (true, Some(anchor)));
}

#[test]
fn native_move_while_expanded_keeps_the_new_position() {
    let anchor = at(1500, 200);
    let clamped = at(1200, 200);
    let dragged = at(900, 360);
    let mut geometry = WindowGeometry::default();

    geometry.begin_expand(anchor, clamped);
    geometry.record_move(clamped);
    geometry.record_move(dragged);

    assert!(geometry.expanded_dragged);
    assert_eq!(geometry.begin_collapse(), (false, Some(anchor)));
}

#[test]
fn collapsed_move_is_not_mistaken_for_expanded_drag() {
    let mut geometry = WindowGeometry::default();

    geometry.record_move(at(640, 480));

    assert!(!geometry.expanded_dragged);
    assert_eq!(geometry.collapsed_anchor, None);
}

#[test]
fn moves_to_the_anchor_and_back_are_no_drag() {
    let anchor = at(10, 20);
    let put = at(0, 20);
    let mut geometry = WindowGeometry::default();
    geometry.begin_expand(anchor, put);
    for position in [put, anchor, put, put, anchor] {
        geometry.record_move(position);
    }
    assert_eq!(geometry.programmatic_expanded_position, Some(put));
    assert_eq!(geometry.collapse(), Some(anchor));
    assert!(!geometry.expanded);
    assert_eq!(geometry.collapsed_anchor, Some(anchor));
}

#[test]
fn a_drag_stands_whatever_comes_after_it() {
    let anchor = at(10, 20);
    let put = at(0, 20);
    let mut geometry = WindowGeometry::default();
    geometry.begin_expand(anchor, put);
    geometry.mark_expanded_drag();
    assert_eq!(geometry.programmatic_expanded_position, None);
    geometry.record_move(anchor);
    geometry.record_move(put);
    assert_eq!(geometry.collapse(), None);
    assert!(!geometry.expanded_dragged);
}

#[test]
fn a_drag_of_a_collapsed_window_leaves_no_trace() {
    let mut geometry = WindowGeometry::default();
    geometry.mark_expanded_drag();
    geometry.record_move(at(5, 5));
    assert!(!geometry.expanded_dragged);
    assert_eq!(geometry.begin_collapse(), (true, None));
    assert_eq!(geometry.collapse(), None);
}

#[test]
fn expanding_in_place_notes_no_other_place() {
    let anchor = at(10, 20);
    let mut geometry = WindowGeometry::default();
    geometry.begin_expand(anchor, anchor);
    assert_eq!(geometry.programmatic_expanded_position, None);
    geometry.record_move(anchor);
    assert_eq!(geometry.begin_collapse(), (true, Some(anchor)));
}

#[test]
fn an_expanded_window_is_kept_on_its_screen() {
    let full = screen(0, 0, 1920, 1080, 1.0);
    assert_eq!(
        expanded_position(at(1900, 1000), Some(full)),
        Some(at(1564, 724))
    );
    assert_eq!(
        expanded_position(at(-40, -5), Some(full)),
        Some(at(0, 0))
    );
    assert_eq!(
        expanded_position(at(300, 400), Some(full)),
        Some(at(300, 400))
    );
    assert_eq!(
        expanded_position(at(1564, 724), Some(full)),
        Some(at(1564, 724))
    );
}

#[test]
fn the_expanded_edge_follows_the_scale() {
    let scaled = screen(-1920, 100, 1920, 1080, 1.5);
    assert_eq!(
        expanded_position(at(0, 2000), Some(scaled)),
        Some(at(-534, 646))
    );
    let odd = screen(0, 0, 1000, 1000, 1.25);
    assert_eq!(
        expanded_position(at(999, 999), Some(odd)),
        Some(at(555, 555))
    );
}

#[test]
fn a_screen_that_is_too_small_shows_the_beginning() {
    let tiny = screen(50, 60, 100, 100, 1.0);
    assert_eq!(
        expanded_position(at(500, 500), Some(tiny)),
        Some(at(50, 60))
    );
}

#[test]
fn without_a_screen_the_window_stays() {
    assert_eq!(expanded_position(at(7, -8), None), Some(at(7, -8)));
}

#[test]
fn a_screen_beyond_the_coordinates_gives_no_place() {
    let far = screen(i32::MAX, 0, 1920, 1080, 1.0);
    assert_eq!(expanded_position(at(0, 0), Some(far)), None);
    let low = screen(0, i32::MIN, 10, 0, 1.0);
    assert_eq!(expanded_position(at(0, 0), Some(low)), None);
    let huge_scale = screen(-100, 0, 50, 50, f64::MAX);
    assert_eq!(expanded_position(at(0, 0), Some(huge_scale)), None);
}

#[test]
fn sizes_beyond_the_coordinates_count_as_negative() {
    let wrapped = screen(0, 0, u32::MAX, 1080, 1.0);
    assert_eq!(
        expanded_position(at(500, 0), Some(wrapped)),
        Some(at(0, 0))
    );
}

#[test]
fn a_new_window_appears_at_the_upper_right() {
    let full = screen(0, 0, 1920, 1080, 1.0);
    assert_eq!(first_position(&full, 80), Some(at(1804, 116)));
    let second = screen(1920, -200, 1280, 1024, 2.0);
    assert_eq!(first_position(&second, 160), Some(at(3004, -84)));
    let far = screen(0, i32::MAX, 1280, 1024, 1.0);
    assert_eq!(first_position(&far, 160), None);
}

#[test]
fn the_edges_are_fixed() {
    assert_eq!(COLLAPSED_SIZE, 80);
    assert_eq!(EXPANDED_SIZE, 356);
}
