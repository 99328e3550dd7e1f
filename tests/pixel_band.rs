use fractal::{Pixel, PixelBand};

#[test]
fn set_color_of_pixel_without_offset() {
    let mut pixels: Vec<u8> = vec![0; 10 * 10];
    let pixel = Pixel { x: 7, y: 8 };

    {
        let mut pixel_band = PixelBand::new(&mut pixels, 0);
        pixel_band.set_color_of_pixel(42, &pixel, 10);
    }

    assert_eq!(pixels[7 + 8 * 10], 42);
}

#[test]
fn set_color_of_pixel_with_offset() {
    let mut pixels: Vec<u8> = vec![0; 10 * 10];
    let pixel = Pixel { x: 7, y: 8 };

    {
        let mut chunks: Vec<&mut [u8]> = pixels.chunks_mut(10 * 5).collect();
        let mut pixel_band = PixelBand::new(&mut chunks[1], 10 * 5);
        pixel_band.set_color_of_pixel(42, &pixel, 10);
    }

    assert_eq!(pixels[7 + 8 * 10], 42);
}

#[test]
fn set_color_of_pixel_writes_only_that_pixel() {
    let mut pixels: Vec<u8> = vec![0; 4 * 3];
    {
        let mut chunks: Vec<&mut [u8]> = pixels.chunks_mut(4).collect();
        let mut pixel_band = PixelBand::new(&mut chunks[2], 8);
        pixel_band.set_color_of_pixel(9, &Pixel { x: 1, y: 2 }, 4);
    }
    let mut expected = vec![0u8; 12];
    expected[9] = 9;
    assert_eq!(pixels, expected);
}

#[test]
fn draw_subtracts_offset() {
    let mut pixels: Vec<u8> = vec![0; 6];
    let pixel = Pixel { x: 2, y: 3 };
    // flat index 3 * 4 + 2 = 14, minus offset 10
    pixel.draw(77, 4, 10, &mut pixels);
    assert_eq!(pixels, vec![0, 0, 0, 0, 77, 0]);
}
