use termfx::framebuffer::Framebuffer;
use termfx::screen::RGB;
use termfx::tile::BgColor;
use termfx::tile::FgColor;
use termfx::tile::Tile;

// Sets the four corners, or as many as there are.
fn mark_corners<F: Framebuffer>(buffer: &mut F, brush: F::Brush)
where
    F::Brush: Copy,
{
    let width: usize = Framebuffer::width(buffer);
    let height: usize = Framebuffer::height(buffer);
    if width > 0 && height > 0 {
        Framebuffer::set_pixel(buffer, 0, 0, brush);
        Framebuffer::set_pixel(buffer, width - 1, 0, brush);
        Framebuffer::set_pixel(buffer, 0, height - 1, brush);
        Framebuffer::set_pixel(buffer, width - 1, height - 1, brush);
    }
}

fn reset_any<F: Framebuffer>(buffer: &mut F) {
    Framebuffer::reset(buffer);
}

#[test]
fn either_framebuffer_sets_cells() {
    let red = RGB(255, 0, 0);
    let mut pixels = termfx::screen::Screen::new(3, 2, |screen| screen);
    mark_corners(&mut pixels, red);
    assert_eq!(pixels.pixel(0, 0), red);
    assert_eq!(pixels.pixel(2, 0), red);
    assert_eq!(pixels.pixel(0, 3), red);
    assert_eq!(pixels.pixel(2, 3), red);
    assert_eq!(pixels.pixel(1, 0), RGB(0, 0, 0));
    assert_eq!(pixels.pixel(1, 3), RGB(0, 0, 0));
    let star = Tile::new(FgColor::Yellow, BgColor::Black, b'*');
    let mut tiles = termfx::tile::Screen::new(3, 3, |screen| screen);
    mark_corners(&mut tiles, star);
    assert_eq!(tiles.tile(0, 0), star.calc());
    assert_eq!(tiles.tile(2, 1), star.calc());
    assert_ne!(tiles.tile(1, 1), star.calc());
}

#[test]
fn either_framebuffer_returns_to_its_first_grid() {
    let mut pixels = termfx::screen::Screen::new(2, 1, |mut screen| {
        screen.bg(RGB(9, 9, 9));
        screen
    });
    let pixels_at_first: Vec<u8> = pixels.render();
    mark_corners(&mut pixels, RGB(1, 1, 1));
    assert_ne!(pixels.render(), pixels_at_first);
    reset_any(&mut pixels);
    assert_eq!(pixels.render(), pixels_at_first);
    let mut tiles = termfx::tile::Screen::new(2, 5, |mut screen| {
        screen.initial_draw();
        screen
    });
    let tiles_at_first: Vec<u8> = tiles.render("");
    mark_corners(&mut tiles, Tile::new(FgColor::Red, BgColor::Red, b'!'));
    assert_ne!(tiles.render(""), tiles_at_first);
    reset_any(&mut tiles);
    assert_eq!(tiles.render(""), tiles_at_first);
}

#[test]
fn either_framebuffer_tells_its_size() {
    let pixels = termfx::screen::Screen::new(7, 3, |screen| screen);
    let tiles = termfx::tile::Screen::new(7, 3, |screen| screen);
    assert_eq!((Framebuffer::width(&pixels), Framebuffer::height(&pixels)), (7, 6));
    assert_eq!((Framebuffer::width(&tiles), Framebuffer::height(&tiles)), (7, 2));
    let mut none = termfx::tile::Screen::new(0, 1, |screen| screen);
    mark_corners(&mut none, Tile::new(FgColor::Red, BgColor::Red, b'!'));
    assert_eq!(Framebuffer::height(&none), 0);
}
