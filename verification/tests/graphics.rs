use proka_kernel::color::Color;
use proka_kernel::graphics::{FramebufferInfo, Pixel, Renderer};

fn info() -> FramebufferInfo {
    FramebufferInfo {
        width: 8,
        height: 6,
        pitch: 32,
        bpp: 32,
        red_mask_shift: 24,
        green_mask_shift: 16,
        blue_mask_shift: 8,
    }
}

fn rgb(c: Color) -> (u8, u8, u8) {
    (c.r, c.g, c.b)
}

#[test]
fn pixels_read_back_what_was_written() {
    let mut r = Renderer::new(info());
    assert_eq!((r.width(), r.height()), (8, 6));
    let red = Color::new(200, 10, 20);
    r.set_pixel(Pixel::new(3, 2), &red);
    assert_eq!(rgb(r.get_pixel(Pixel::new(3, 2))), (200, 10, 20));
    assert_eq!(rgb(r.get_pixel(Pixel::new(2, 2))), (0, 0, 0));
    r.set_pixel(Pixel::new(100, 100), &red);
}

#[test]
fn clear_fills_with_the_clear_color() {
    let mut r = Renderer::new(info());
    let blue = Color::new(1, 2, 250);
    r.set_clear_color(blue);
    assert_eq!(r.get_clear_color(), blue);
    r.clear();
    for y in 0..6 {
        for x in 0..8 {
            assert_eq!(rgb(r.get_pixel(Pixel::new(x, y))), (1, 2, 250));
        }
    }
}

#[test]
fn shapes_touch_the_expected_pixels() {
    let mut r = Renderer::new(info());
    let white = Color::new(255, 255, 255);
    r.draw_line(Pixel::new(0, 0), Pixel::new(5, 5), white);
    for i in 0..6 {
        assert_eq!(rgb(r.get_pixel(Pixel::new(i, i))), (255, 255, 255));
    }
    assert_eq!(rgb(r.get_pixel(Pixel::new(1, 0))), (0, 0, 0));
    let green = Color::new(0, 255, 0);
    r.fill_rect(Pixel::new(6, 0), 2, 2, green);
    assert_eq!(rgb(r.get_pixel(Pixel::new(7, 1))), (0, 255, 0));
    assert_eq!(rgb(r.get_pixel(Pixel::new(7, 2))), (0, 255, 0));
    assert_eq!(rgb(r.get_pixel(Pixel::new(7, 3))), (0, 0, 0));
    assert_eq!(rgb(r.get_pixel(Pixel::new(5, 0))), (0, 0, 0));
    r.draw_rect(Pixel::new(0, 3), 3, 2, green);
    assert_eq!(rgb(r.get_pixel(Pixel::new(0, 3))), (0, 255, 0));
    r.fill_triangle(Pixel::new(4, 3), Pixel::new(7, 3), Pixel::new(4, 5), white);
    assert_eq!(rgb(r.get_pixel(Pixel::new(4, 4))), (255, 255, 255));
    r.draw_circle(Pixel::new(4, 3), 1, white);
    assert_eq!(rgb(r.get_pixel(Pixel::new(5, 3))), (255, 255, 255));
}

#[test]
fn present_hands_out_changed_rows_once() {
    let mut r = Renderer::new(info());
    assert!(r.present().is_empty());
    let c = Color::new(9, 8, 7);
    r.set_pixel(Pixel::new(2, 1), &c);
    r.set_pixel(Pixel::new(4, 3), &c);
    let copies = r.present();
    assert_eq!(copies.len(), 2);
    assert_eq!(copies[0].offset, 32 + 2 * 4);
    assert_eq!(copies[0].bytes.len(), 2 * 4);
    assert_eq!(copies[1].offset, 2 * 32 + 2 * 4);
    assert!(r.present().is_empty());
    r.set_pixel(Pixel::new(1, 1), &c);
    assert!(r.present().is_empty());
}

#[test]
fn scrolling_moves_rows() {
    let mut r = Renderer::new(info());
    let c = Color::new(50, 60, 70);
    r.set_pixel(Pixel::new(1, 1), &c);
    r.scroll_y(2);
    assert_eq!(rgb(r.get_pixel(Pixel::new(1, 3))), (50, 60, 70));
    assert_eq!(rgb(r.get_pixel(Pixel::new(1, 1))), (0, 0, 0));
    r.scroll_y(-2);
    assert_eq!(rgb(r.get_pixel(Pixel::new(1, 1))), (50, 60, 70));
    r.scroll_y(10);
    assert_eq!(rgb(r.get_pixel(Pixel::new(1, 1))), (0, 0, 0));
}
