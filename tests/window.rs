use fractal::window::MINIMUM_WINDOW_SIZE;
use fractal::Window;

#[test]
fn new_returns_window() {
    let window = Window::new(10, 20, 30, 40);

    assert_eq!(window.min_x, 10);
    assert_eq!(window.min_y, 20);
    assert_eq!(window.width, 30);
    assert_eq!(window.height, 40);
}

#[test]
fn split_if_sensible_for_wide_window_returns_two_windows() {
    let window = Window { min_x: 10, min_y: 20, width: 100, height: 10 };

    let (left_part, right_part) = window.split_if_sensible();

    assert!(right_part.is_some());
    assert_eq!(left_part, Window { min_x: 10, min_y: 20, width: 50, height: 10 });
    assert_eq!(right_part.unwrap(), Window { min_x: 60, min_y: 20, width: 50, height: 10 });
}

#[test]
fn split_if_sensible_for_tall_window_returns_two_windows() {
    let window = Window { min_x: 10, min_y: 20, width: 10, height: 100 };

    let (upper_part, lower_part) = window.split_if_sensible();

    assert!(lower_part.is_some());
    assert_eq!(upper_part, Window { min_x: 10, min_y: 20, width: 10, height: 50 });
    assert_eq!(lower_part.unwrap(), Window { min_x: 10, min_y: 70, width: 10, height: 50 });
}

#[test]
fn split_if_sensible_for_small_window_returns_window() {
    let window = Window { min_x: 10, min_y: 20, width: 10, height: 10 };

    let (single_part, non_existing_part) = window.split_if_sensible();

    assert!(non_existing_part.is_none());
    assert_eq!(single_part, window);
}

#[test]
fn split_keeps_area_and_leaves_no_gap() {
    let window = Window { min_x: 3, min_y: 5, width: 101, height: 40 };
    let (left, right) = window.split_if_sensible();
    let right = right.unwrap();
    assert_eq!(left, Window { min_x: 3, min_y: 5, width: 50, height: 40 });
    assert_eq!(right, Window { min_x: 53, min_y: 5, width: 51, height: 40 });
    assert_eq!(left.width * left.height + right.width * right.height, 101 * 40);
}

#[test]
fn split_prefers_width_on_a_tie() {
    let window = Window { min_x: 0, min_y: 0, width: 64, height: 64 };
    let (first, second) = window.split_if_sensible();
    assert_eq!(first, Window { min_x: 0, min_y: 0, width: 32, height: 64 });
    assert_eq!(second, Some(Window { min_x: 32, min_y: 0, width: 32, height: 64 }));
}

#[test]
fn split_at_minimum_size_keeps_window() {
    let window = Window { min_x: 1, min_y: 2, width: MINIMUM_WINDOW_SIZE, height: MINIMUM_WINDOW_SIZE };
    assert_eq!(window.split_if_sensible(), (window, None));
    let wider = Window { width: MINIMUM_WINDOW_SIZE + 1, ..window };
    assert!(wider.split_if_sensible().1.is_some());
}

#[test]
fn vertically_split_halves_rows() {
    let window = Window { min_x: 4, min_y: 6, width: 8, height: 9 };
    let (upper, lower) = window.vertically_split();
    assert_eq!(upper, Window { min_x: 4, min_y: 6, width: 8, height: 4 });
    assert_eq!(lower, Window { min_x: 4, min_y: 10, width: 8, height: 5 });
}
