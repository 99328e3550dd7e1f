use fractal::{Pixel, Window, WindowAreaIterator, WindowBorderIterator, WindowLineIterator};

fn coordinates(pixels: Vec<Pixel>) -> Vec<(u32, u32)> {
    pixels.into_iter().map(|p| (p.x, p.y)).collect()
}

fn line(mut iterator: WindowLineIterator) -> Vec<(u32, u32)> {
    let mut out = Vec::new();
    while let Some(pixel) = iterator.next() {
        out.push(pixel);
    }
    coordinates(out)
}

fn area(mut iterator: WindowAreaIterator) -> Vec<(u32, u32)> {
    let mut out = Vec::new();
    while let Some(pixel) = iterator.next() {
        out.push(pixel);
    }
    coordinates(out)
}

fn border(mut iterator: WindowBorderIterator) -> Vec<(u32, u32)> {
    let mut out = Vec::new();
    while let Some(pixel) = iterator.next() {
        out.push(pixel);
    }
    coordinates(out)
}

#[test]
fn window_line_iterator() {
    let window = Window::new(10, 20, 6, 4);
    let iterator = WindowLineIterator::new(&window, 21);

    assert_eq!(
        line(iterator),
        vec![(10, 21), (11, 21), (12, 21), (13, 21), (14, 21), (15, 21)]
    );
}

#[test]
fn window_area_iterator() {
    let window = Window::new(10, 20, 6, 4);
    let iterator = WindowAreaIterator::new(&window);

    let pixels = area(iterator);
    assert_eq!(pixels.len(), 24);
    assert_eq!(&pixels[..7], &[(10, 20), (11, 20), (12, 20), (13, 20), (14, 20), (15, 20), (10, 21)]);
    assert_eq!(pixels[23], (15, 23));
}

#[test]
fn window_border_iterator() {
    let window = Window::new(10, 20, 6, 4);
    let iterator = WindowBorderIterator::new(&window);

    let pixels = border(iterator);
    assert_eq!(pixels.len(), 2 * 6 + 2 * 4 - 4);
    assert_eq!(
        pixels,
        vec![
            (10, 20), (11, 20), (12, 20), (13, 20), (14, 20), (15, 20),
            (10, 21), (15, 21), (10, 22), (15, 22),
            (10, 23), (11, 23), (12, 23), (13, 23), (14, 23), (15, 23),
        ]
    );
}

#[test]
fn border_of_two_by_two_is_every_pixel() {
    let window = Window::new(0, 0, 2, 2);
    assert_eq!(border(WindowBorderIterator::new(&window)), vec![(0, 0), (1, 0), (0, 1), (1, 1)]);
}

#[test]
fn border_of_thin_window_is_its_area() {
    let column = Window::new(3, 4, 1, 5);
    assert_eq!(border(WindowBorderIterator::new(&column)), area(WindowAreaIterator::new(&column)));
    let row = Window::new(3, 4, 5, 1);
    assert_eq!(border(WindowBorderIterator::new(&row)), area(WindowAreaIterator::new(&row)));
    let single = Window::new(7, 7, 1, 1);
    assert_eq!(border(WindowBorderIterator::new(&single)), vec![(7, 7)]);
}

#[test]
fn iterators_restart_from_the_same_window() {
    let window = Window::new(2, 3, 5, 7);
    assert_eq!(area(WindowAreaIterator::new(&window)), area(WindowAreaIterator::new(&window)));
    assert_eq!(border(WindowBorderIterator::new(&window)), border(WindowBorderIterator::new(&window)));
    assert_eq!(border(WindowBorderIterator::new(&window)).len(), 2 * 5 + 2 * 7 - 4);
}

#[test]
fn exhausted_iterator_stays_exhausted() {
    let window = Window::new(0, 0, 1, 1);
    let mut iterator = WindowAreaIterator::new(&window);
    assert_eq!(iterator.next(), Some(Pixel { x: 0, y: 0 }));
    assert_eq!(iterator.next(), None);
    assert_eq!(iterator.next(), None);
}
