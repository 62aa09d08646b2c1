use termfx::font::Font;
use termfx::screen::frame_pause;
use termfx::screen::to_ascii_lower;
use termfx::screen::ChannelMessage;
use termfx::screen::ImageFault;
use termfx::screen::LoadedImage;
use termfx::screen::Screen;
use termfx::screen::RGB;
use termfx::screen::TARGET_DELTA;

const BLACK: RGB = RGB(0, 0, 0);
const RED: RGB = RGB(255, 0, 0);
const GREEN: RGB = RGB(0, 255, 0);
const BLUE: RGB = RGB(0, 0, 255);
const SKY: RGB = RGB(135, 206, 235);

fn plain(columns: u16, rows: u16) -> Screen {
    Screen::new(columns, rows, |screen| screen)
}

// The pixels that differ from `ground`, as (x, y), row by row.
fn painted(screen: &Screen, ground: RGB) -> Vec<(usize, usize)> {
    let mut found: Vec<(usize, usize)> = Vec::new();
    for y in 0..screen.height() {
        for x in 0..screen.width() {
            if screen.pixel(x, y) != ground {
                found.push((x, y));
            }
        }
    }
    found
}

// A font of 128 glyphs of two rows in which only `a` and `b` have set bits.
fn small_font() -> Font {
    let mut raw: Vec<u8> = vec![0x72, 0xb5, 0x4a, 0x86];
    for field in [0u32, 32, 0, 128, 2, 2, 8] {
        raw.extend_from_slice(&field.to_le_bytes());
    }
    raw.extend_from_slice(&[0u8; 256]);
    raw[32 + 2 * 0x61] = 0b1000_0001;
    raw[32 + 2 * 0x61 + 1] = 0b0100_0000;
    raw[32 + 2 * 0x62] = 0b0000_0001;
    Font::load(&raw).unwrap()
}

fn sprite() -> LoadedImage {
    vec![
        vec![Some(RED), None, Some(GREEN)],
        vec![None, Some(BLUE), None],
    ]
}

#[test]
fn new_screen_is_twice_as_high_as_the_terminal() {
    let screen = plain(7, 3);
    assert_eq!(screen.width(), 7);
    assert_eq!(screen.height(), 6);
    assert_eq!(painted(&screen, BLACK), vec![]);
}

#[test]
fn new_screen_of_an_empty_terminal() {
    let screen = plain(0, 0);
    assert_eq!(screen.width(), 0);
    assert_eq!(screen.height(), 0);
    assert_eq!(screen.render(), b"\x1b[J\x1b[H".to_vec());
}

#[test]
fn new_screen_of_the_largest_terminal_has_room_for_all_rows() {
    let screen = plain(1, u16::MAX);
    assert_eq!(screen.height(), 131070);
}

#[test]
fn initial_draw_paints_what_reset_returns_to() {
    let mut screen = Screen::new(4, 2, |mut screen| {
        screen.bg(SKY);
        screen.set_pixel(1, 1, RED);
        screen
    });
    assert_eq!(screen.pixel(0, 0), SKY);
    assert_eq!(screen.pixel(1, 1), RED);
    screen.bg(GREEN);
    screen.line(0, 0, 3, 3, BLUE);
    screen.reset();
    assert_eq!(painted(&screen, SKY), vec![(1, 1)]);
    assert_eq!(screen.pixel(1, 1), RED);
}

#[test]
fn reset_twice_is_reset_once() {
    let mut screen = Screen::new(3, 1, |mut screen| {
        screen.bg(SKY);
        screen
    });
    screen.rectangle(0, 0, 3, 2, RED);
    screen.reset();
    let once: Vec<u8> = screen.render();
    screen.reset();
    assert_eq!(screen.render(), once);
    assert_eq!(painted(&screen, SKY), vec![]);
}

#[test]
fn set_pixel_changes_one_pixel() {
    let mut screen = plain(3, 2);
    screen.set_pixel(2, 3, RED);
    assert_eq!(screen.pixel(2, 3), RED);
    assert_eq!(painted(&screen, BLACK), vec![(2, 3)]);
}

#[test]
fn bg_fills_the_screen() {
    let mut screen = plain(3, 1);
    screen.set_pixel(1, 1, RED);
    screen.bg(GREEN);
    assert_eq!(painted(&screen, GREEN), vec![]);
    assert_eq!(screen.width(), 3);
    assert_eq!(screen.height(), 2);
}

#[test]
fn rectangle_is_half_open() {
    let mut screen = plain(5, 3);
    screen.rectangle(1, 2, 3, 4, RED);
    assert_eq!(painted(&screen, BLACK), vec![(1, 2), (2, 2), (1, 3), (2, 3)]);
}

#[test]
fn rectangle_may_reach_the_far_corner() {
    let mut screen = plain(2, 1);
    screen.rectangle(0, 0, 2, 2, BLUE);
    assert_eq!(painted(&screen, BLUE), vec![]);
}

#[test]
fn empty_rectangle_draws_nothing() {
    let mut screen = plain(4, 2);
    screen.rectangle(2, 1, 2, 3, RED);
    screen.rectangle(3, 2, 1, 4, RED);
    screen.rectangle(1, 3, 3, 3, RED);
    // Nothing is asked of the corners of an empty rectangle.
    screen.rectangle(9, 0, 9, 100, RED);
    screen.rectangle(0, 50, 100, 50, RED);
    assert_eq!(painted(&screen, BLACK), vec![]);
}

#[test]
fn line_draws_the_points_of_bresenham() {
    let mut screen = plain(6, 2);
    screen.line(0, 0, 5, 2, RED);
    assert_eq!(
        painted(&screen, BLACK),
        vec![(0, 0), (1, 0), (2, 1), (3, 1), (4, 2), (5, 2)]
    );
}

#[test]
fn line_back_draws_the_same_pixels() {
    let mut forward = plain(14, 5);
    let mut backward = plain(14, 5);
    forward.line(2, 9, 13, 4, RED);
    backward.line(13, 4, 2, 9, RED);
    assert_eq!(painted(&forward, BLACK), painted(&backward, BLACK));
}

#[test]
fn triangle_draws_its_three_sides() {
    let mut screen = plain(5, 3);
    screen.triangle(0, 0, 0, 3, 3, 3, GREEN);
    assert_eq!(
        painted(&screen, BLACK),
        vec![(0, 0), (0, 1), (1, 1), (0, 2), (2, 2), (0, 3), (1, 3), (2, 3), (3, 3)]
    );
}

#[test]
fn image_skips_transparent_pixels() {
    let mut screen = Screen::new(5, 2, |mut screen| {
        screen.bg(SKY);
        screen
    });
    screen.image(1, 1, &sprite(), false, false, false, None);
    assert_eq!(painted(&screen, SKY), vec![(1, 1), (3, 1), (2, 2)]);
    assert_eq!(screen.pixel(1, 1), RED);
    assert_eq!(screen.pixel(3, 1), GREEN);
    assert_eq!(screen.pixel(2, 2), BLUE);
}

#[test]
fn image_mirror_horizontal_reverses_the_rows() {
    let mut screen = plain(5, 2);
    screen.image(1, 1, &sprite(), true, false, false, None);
    assert_eq!(painted(&screen, BLACK), vec![(2, 1), (1, 2), (3, 2)]);
    assert_eq!(screen.pixel(2, 1), BLUE);
    assert_eq!(screen.pixel(1, 2), RED);
    assert_eq!(screen.pixel(3, 2), GREEN);
}

#[test]
fn image_mirror_vertical_reverses_each_row() {
    let mut screen = plain(5, 2);
    screen.image(1, 1, &sprite(), false, true, false, None);
    assert_eq!(screen.pixel(1, 1), GREEN);
    assert_eq!(screen.pixel(3, 1), RED);
    assert_eq!(screen.pixel(2, 2), BLUE);
    assert_eq!(painted(&screen, BLACK), vec![(1, 1), (3, 1), (2, 2)]);
}

#[test]
fn image_mirrored_both_ways() {
    let picture: LoadedImage = vec![vec![Some(RED), Some(GREEN)], vec![Some(BLUE), None]];
    let mut screen = plain(2, 1);
    screen.image(0, 0, &picture, true, true, false, None);
    assert_eq!(screen.pixel(0, 0), BLACK);
    assert_eq!(screen.pixel(1, 0), BLUE);
    assert_eq!(screen.pixel(0, 1), GREEN);
    assert_eq!(screen.pixel(1, 1), RED);
}

#[test]
fn image_flipped_twice_is_the_image() {
    let picture: LoadedImage = sprite();
    let mut rows_flipped: LoadedImage = picture.clone();
    rows_flipped.reverse();
    let mut columns_flipped: LoadedImage = picture.clone();
    for row in columns_flipped.iter_mut() {
        row.reverse();
    }
    let mut plainly = plain(4, 2);
    plainly.image(0, 1, &picture, false, false, false, None);
    // A picture stored flipped and drawn flipped is flipped twice.
    let mut by_rows = plain(4, 2);
    by_rows.image(0, 1, &rows_flipped, true, false, false, None);
    let mut by_columns = plain(4, 2);
    by_columns.image(0, 1, &columns_flipped, false, true, false, None);
    assert_eq!(by_rows.render(), plainly.render());
    assert_eq!(by_columns.render(), plainly.render());
}

#[test]
fn image_rotate_swaps_the_axes() {
    let mut screen = plain(5, 3);
    screen.image(1, 2, &sprite(), false, false, true, None);
    // Row 0 of the picture runs down from (1, 2), row 1 down from (2, 2).
    assert_eq!(screen.pixel(1, 2), RED);
    assert_eq!(screen.pixel(1, 4), GREEN);
    assert_eq!(screen.pixel(2, 3), BLUE);
    assert_eq!(painted(&screen, BLACK), vec![(1, 2), (2, 3), (1, 4)]);
}

#[test]
fn image_color_replaces_every_opaque_pixel() {
    let mut screen = plain(5, 2);
    screen.image(0, 0, &sprite(), false, false, false, Some(SKY));
    assert_eq!(painted(&screen, BLACK), vec![(0, 0), (2, 0), (1, 1)]);
    assert_eq!(screen.pixel(0, 0), SKY);
    assert_eq!(screen.pixel(2, 0), SKY);
    assert_eq!(screen.pixel(1, 1), SKY);
}

#[test]
fn image_is_clipped_at_the_edges() {
    let mut screen = plain(3, 1);
    screen.image(2, 1, &sprite(), false, false, false, None);
    assert_eq!(painted(&screen, BLACK), vec![(2, 1)]);
    assert_eq!(screen.pixel(2, 1), RED);
    screen.image(3, 0, &sprite(), false, false, false, None);
    screen.image(0, 2, &sprite(), false, false, false, None);
    screen.image(usize::MAX, usize::MAX, &sprite(), false, false, false, None);
    assert_eq!(painted(&screen, BLACK), vec![(2, 1)]);
}

#[test]
fn rotated_image_is_clipped_by_where_it_lands() {
    // Three wide and two high, the picture stands three high when rotated.
    let mut screen = plain(2, 2);
    screen.image(0, 1, &sprite(), false, false, true, None);
    assert_eq!(screen.pixel(0, 1), RED);
    assert_eq!(screen.pixel(1, 2), BLUE);
    assert_eq!(screen.pixel(0, 3), GREEN);
    assert_eq!(painted(&screen, BLACK), vec![(0, 1), (1, 2), (0, 3)]);
    let mut narrow = plain(1, 2);
    narrow.image(0, 2, &sprite(), false, false, true, None);
    assert_eq!(painted(&narrow, BLACK), vec![(0, 2)]);
}

#[test]
fn image_rows_may_differ_in_length() {
    let picture: LoadedImage = vec![vec![Some(RED)], vec![], vec![None, Some(GREEN), Some(BLUE)]];
    let mut screen = plain(3, 2);
    screen.image(0, 0, &picture, false, true, false, None);
    assert_eq!(screen.pixel(0, 0), RED);
    assert_eq!(screen.pixel(0, 2), BLUE);
    assert_eq!(screen.pixel(1, 2), GREEN);
    assert_eq!(painted(&screen, BLACK), vec![(0, 0), (0, 2), (1, 2)]);
}

#[test]
fn from_rgba_drops_pixels_without_alpha() {
    let rgba: Vec<u8> = vec![
        1, 2, 3, 255, 4, 5, 6, 0, //
        7, 8, 9, 1, 0, 0, 0, 0, //
        10, 11, 12, 128, 13, 14, 15, 255,
    ];
    let picture: LoadedImage = Screen::from_rgba(2, 3, &rgba);
    assert_eq!(
        picture,
        vec![
            vec![Some(RGB(1, 2, 3)), None],
            vec![Some(RGB(7, 8, 9)), None],
            vec![Some(RGB(10, 11, 12)), Some(RGB(13, 14, 15))],
        ]
    );
}

#[test]
fn from_rgba_of_nothing() {
    let none: LoadedImage = Screen::from_rgba(0, 0, &[]);
    assert_eq!(none.len(), 0);
    let flat: LoadedImage = Screen::from_rgba(0, 2, &[]);
    assert_eq!(flat, vec![vec![], vec![]]);
    let thin: LoadedImage = Screen::from_rgba(3, 0, &[]);
    assert_eq!(thin.len(), 0);
}

// The PNG file of an image of the given pixels.
fn png_file(width: u32, height: u32, rgba: &[u8]) -> Vec<u8> {
    let pixels = image::RgbaImage::from_raw(width, height, rgba.to_vec()).unwrap();
    let mut file: Vec<u8> = Vec::new();
    image::DynamicImage::ImageRgba8(pixels)
        .write_to(&mut std::io::Cursor::new(&mut file), image::ImageOutputFormat::Png)
        .unwrap();
    file
}

#[test]
fn load_image_decodes_a_file() {
    let rgba: Vec<u8> = vec![
        1, 2, 3, 255, 4, 5, 6, 0, 200, 100, 50, 7, //
        7, 8, 9, 1, 0, 0, 0, 0, 255, 255, 255, 255,
    ];
    let file: Vec<u8> = png_file(3, 2, &rgba);
    assert_eq!(
        Screen::load_image(&file),
        Ok(vec![
            vec![Some(RGB(1, 2, 3)), None, Some(RGB(200, 100, 50))],
            vec![Some(RGB(7, 8, 9)), None, Some(RGB(255, 255, 255))],
        ])
    );
}

#[test]
fn load_image_gives_grey_pixels_three_equal_channels() {
    let pixels = image::GrayImage::from_raw(2, 1, vec![0, 90]).unwrap();
    let mut file: Vec<u8> = Vec::new();
    image::DynamicImage::ImageLuma8(pixels)
        .write_to(&mut std::io::Cursor::new(&mut file), image::ImageOutputFormat::Png)
        .unwrap();
    assert_eq!(
        Screen::load_image(&file),
        Ok(vec![vec![Some(RGB(0, 0, 0)), Some(RGB(90, 90, 90))]])
    );
}

#[test]
fn load_image_refuses_what_is_no_image() {
    assert_eq!(Screen::load_image(&[]), Err(ImageFault::Undecodable));
    assert_eq!(Screen::load_image(b"planes"), Err(ImageFault::Undecodable));
    let mut file: Vec<u8> = png_file(2, 2, &[9; 16]);
    file.truncate(file.len() / 2);
    assert_eq!(Screen::load_image(&file), Err(ImageFault::Undecodable));
}

#[test]
fn load_section_copies_a_rectangle() {
    let sheet: LoadedImage = vec![
        vec![Some(RGB(0, 0, 0)), Some(RGB(1, 0, 0)), Some(RGB(2, 0, 0)), None],
        vec![Some(RGB(0, 1, 0)), None, Some(RGB(2, 1, 0)), Some(RGB(3, 1, 0))],
        vec![None, Some(RGB(1, 2, 0)), Some(RGB(2, 2, 0)), Some(RGB(3, 2, 0))],
    ];
    assert_eq!(
        Screen::load_section(&sheet, 1, 1, 3, 3),
        vec![
            vec![None, Some(RGB(2, 1, 0))],
            vec![Some(RGB(1, 2, 0)), Some(RGB(2, 2, 0))],
        ]
    );
    assert_eq!(Screen::load_section(&sheet, 0, 0, 4, 3), sheet);
    assert_eq!(Screen::load_section(&sheet, 2, 1, 2, 2), vec![vec![]]);
    assert_eq!(Screen::load_section(&sheet, 9, 2, 0, 2).len(), 0);
}

#[test]
fn text_plots_the_set_bits_of_each_glyph() {
    let font: Font = small_font();
    let mut screen = plain(17, 1);
    screen.text(1, 0, RED, &font, "ab");
    assert_eq!(
        painted(&screen, BLACK),
        vec![(1, 0), (8, 0), (16, 0), (2, 1)]
    );
}

#[test]
fn text_is_looked_up_in_lower_case() {
    let font: Font = small_font();
    let mut upper = plain(9, 1);
    let mut lower = plain(9, 1);
    upper.text(0, 0, GREEN, &font, "A");
    lower.text(0, 0, GREEN, &font, "a");
    assert_eq!(painted(&upper, BLACK), vec![(0, 0), (7, 0), (1, 1)]);
    assert_eq!(upper.render(), lower.render());
}

#[test]
fn newline_starts_a_line_two_pixels_below_the_glyphs() {
    let font: Font = small_font();
    let mut screen = plain(17, 3);
    screen.text(1, 0, BLUE, &font, " a\nb");
    assert_eq!(
        painted(&screen, BLACK),
        vec![(9, 0), (16, 0), (10, 1), (8, 4)]
    );
}

#[test]
fn text_of_blank_glyphs_may_run_off_the_screen() {
    let font: Font = small_font();
    let mut screen = plain(2, 1);
    screen.text(1, 1, RED, &font, "  \n\n   \n");
    screen.text(5, 9, RED, &font, "");
    assert_eq!(painted(&screen, BLACK), vec![]);
}

#[test]
fn lower_case_of_ascii_only() {
    assert_eq!(to_ascii_lower('A'), 'a');
    assert_eq!(to_ascii_lower('Z'), 'z');
    assert_eq!(to_ascii_lower('q'), 'q');
    assert_eq!(to_ascii_lower('@'), '@');
    assert_eq!(to_ascii_lower('['), '[');
    assert_eq!(to_ascii_lower('\n'), '\n');
    assert_eq!(to_ascii_lower('É'), 'É');
    for code in 0u8..128 {
        let ch: char = code as char;
        assert_eq!(to_ascii_lower(ch), ch.to_ascii_lowercase());
    }
}

#[test]
fn render_sends_each_pair_of_rows_as_half_blocks() {
    let mut screen = plain(1, 1);
    screen.set_pixel(0, 0, RGB(1, 2, 3));
    screen.set_pixel(0, 1, RGB(40, 50, 255));
    let mut expected: Vec<u8> = Vec::new();
    expected.extend_from_slice(b"\x1b[J\x1b[H");
    expected.extend_from_slice(b"\x1b[38;2;40;50;255m\x1b[48;2;1;2;3m");
    expected.extend_from_slice("▄".as_bytes());
    assert_eq!(screen.render(), expected);
}

#[test]
fn render_goes_row_by_row() {
    let mut screen = plain(2, 2);
    screen.set_pixel(1, 0, RGB(100, 0, 9));
    screen.set_pixel(0, 3, RGB(0, 10, 0));
    let text: String = String::from_utf8(screen.render()).unwrap();
    assert_eq!(
        text,
        "\x1b[J\x1b[H\
         \x1b[38;2;0;0;0m\x1b[48;2;0;0;0m▄\
         \x1b[38;2;0;0;0m\x1b[48;2;100;0;9m▄\
         \x1b[38;2;0;10;0m\x1b[48;2;0;0;0m▄\
         \x1b[38;2;0;0;0m\x1b[48;2;0;0;0m▄"
    );
}

#[test]
fn on_update_draws_a_frame_on_the_reset_screen() {
    let mut screen = Screen::new(2, 1, |mut screen| {
        screen.bg(SKY);
        screen
    });
    screen.set_pixel(0, 0, RED);
    let (screen, frame) = screen.on_update(None, |mut screen| {
        screen.set_pixel(1, 1, GREEN);
        screen
    });
    assert_eq!(painted(&screen, SKY), vec![(1, 1)]);
    assert_eq!(frame, Some(screen.render()));
}

#[test]
fn on_update_stops_without_touching_the_screen() {
    let mut screen = Screen::new(2, 1, |mut screen| {
        screen.bg(SKY);
        screen
    });
    screen.set_pixel(0, 0, RED);
    let before: Vec<u8> = screen.render();
    let (screen, frame) = screen.on_update(Some(ChannelMessage::Stop), |mut screen| {
        screen.bg(GREEN);
        screen
    });
    assert_eq!(frame, None);
    assert_eq!(screen.render(), before);
    assert_eq!(painted(&screen, SKY), vec![(0, 0)]);
}

#[test]
fn frames_are_sixteen_milliseconds_apart() {
    assert_eq!(TARGET_DELTA, 16_000_000);
    assert_eq!(frame_pause(0), 16_000_000);
    assert_eq!(frame_pause(1), 15_999_999);
    assert_eq!(frame_pause(15_999_999), 1);
}

#[test]
fn a_late_frame_is_not_made_up_for() {
    assert_eq!(frame_pause(16_000_000), 0);
    assert_eq!(frame_pause(16_000_001), 0);
    assert_eq!(frame_pause(40_000_000), 0);
    assert_eq!(frame_pause(u64::MAX), 0);
}

#[test]
fn can_text_tells_whether_text_may_be_drawn() {
    let font: Font = small_font();
    let screen = plain(17, 1);
    assert!(screen.can_text(1, 0, &font, "ab"));
    assert!(screen.can_text(1, 0, &font, "AB"));
    // The last set bit of `b` would land in column 17.
    assert!(!screen.can_text(2, 0, &font, "ab"));
    // The second row of `a` would land in row 2.
    assert!(!screen.can_text(1, 1, &font, "a"));
    assert!(screen.can_text(1, 1, &font, "b"));
    assert!(!screen.can_text(1, 2, &font, "b"));
    // The next line starts four rows lower.
    assert!(!screen.can_text(1, 0, &font, "\nb"));
    assert!(plain(17, 3).can_text(9, 1, &font, "\nb"));
    assert!(!plain(17, 3).can_text(9, 2, &font, "\nb"));
}

#[test]
fn can_text_passes_over_blank_glyphs() {
    let font: Font = small_font();
    let screen = plain(2, 1);
    assert!(screen.can_text(1, 1, &font, "  \n\n   \n"));
    assert!(screen.can_text(usize::MAX, usize::MAX, &font, "   \n\n "));
    assert!(screen.can_text(5, 9, &font, ""));
    assert!(!screen.can_text(usize::MAX, 0, &font, "b"));
    assert!(!screen.can_text(0, usize::MAX, &font, "b"));
}

#[test]
fn can_text_wants_a_glyph_for_every_character() {
    let font: Font = small_font();
    let screen = plain(40, 10);
    assert!(screen.can_text(0, 0, &font, "a~\u{7f}"));
    assert!(!screen.can_text(0, 0, &font, "a\u{80}"));
    assert!(!screen.can_text(0, 0, &font, "é"));
    assert!(screen.can_text(0, 0, &font, "a\n"));
}

#[test]
fn frames_in_a_window_of_time() {
    // Frames that cost less than their time start every 16 ms.
    let costs: [u64; 5] = [0, 1, 15_999_999, 16_000_000, 7_000_000];
    let mut starts: Vec<u64> = Vec::new();
    let mut now: u64 = 0;
    for turn in 0..1000 {
        starts.push(now);
        let cost: u64 = costs[turn % 5];
        now += cost + frame_pause(cost);
    }
    assert_eq!(starts[999], 999 * TARGET_DELTA);
    for (from, window) in [(0u64, 0u64), (0, 1), (5, 16_000_000), (16_000_000, 100_000_000), (1, 159_999_999), (48_000_000, 160_000_000)] {
        let count: u64 = starts
            .iter()
            .filter(|start| from <= **start && **start < from + window)
            .count() as u64;
        assert!(window / TARGET_DELTA <= count);
        assert!(count <= (window + TARGET_DELTA - 1) / TARGET_DELTA);
    }
}

#[test]
fn late_frames_are_dropped() {
    // A frame of 40 ms is followed at once by the next.
    let mut now: u64 = 0;
    for cost in [40_000_000u64, 3_000_000, 16_000_001] {
        now += cost + frame_pause(cost);
    }
    assert_eq!(now, 40_000_000 + 16_000_000 + 16_000_001);
}
