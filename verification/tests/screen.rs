use esp_start::screen::commands::{address_commands, init_commands, ScreenCommand, DEFAULT_CONTRAST};
use esp_start::screen::controller::ScreenController;
use esp_start::screen::font::Font;
use esp_start::screen::framebuffer::Framebuffer;
use esp_start::screen::legacy::{LcdOp, Screen};
use esp_start::screen::text::ScreenFmtWriter;
use esp_start::screen::{SCREEN_CENTER, SCREEN_HEIGHT, SCREEN_WIDTH};

/// A 3-column, 5-row font for the codes 0x20..0x7F; only 'A', 'B' and '#' have ink.
fn test_font() -> Font {
    let mut glyphs = vec![vec![0u8; 3]; 96];
    glyphs[('A' as usize) - 0x20] = vec![0x1E, 0x05, 0x1E];
    glyphs[('B' as usize) - 0x20] = vec![0x1F, 0x15, 0x0A];
    glyphs[('#' as usize) - 0x20] = vec![0x1F, 0x1F, 0x1F];
    Font::new(3, 5, 1, 1, 0x20, glyphs)
}

fn screen() -> ScreenController {
    ScreenController::new(test_font())
}

fn lit(s: &ScreenController) -> Vec<(i16, i16)> {
    let mut v = Vec::new();
    for y in 0..48 {
        for x in 0..84 {
            if s.get_pixel(x, y) {
                v.push((x, y));
            }
        }
    }
    v
}

#[test]
fn display_geometry() {
    assert_eq!((SCREEN_WIDTH, SCREEN_HEIGHT), (84, 48));
    assert_eq!(SCREEN_CENTER, (42, 24));
}

#[test]
fn framebuffer_pixels_map_to_bank_bits() {
    let mut f = Framebuffer::new();
    assert!(f.as_bytes().iter().all(|b| *b == 0));
    f.set_pixel(3, 10, true);
    assert_eq!(f.as_bytes()[3 + 84], 0b0000_0100);
    assert!(f.get_pixel(3, 10));
    f.set_pixel(3, 9, true);
    assert_eq!(f.as_bytes()[3 + 84], 0b0000_0110);
    f.set_pixel(3, 10, false);
    assert_eq!(f.as_bytes()[3 + 84], 0b0000_0010);
    assert!(!f.get_pixel(3, 10));
    f.set_pixel(83, 47, true);
    assert_eq!(f.as_bytes()[503], 0x80);
    f.clear();
    assert!(f.as_bytes().iter().all(|b| *b == 0));
}

#[test]
fn init_sequence_bytes() {
    assert_eq!(init_commands(DEFAULT_CONTRAST), [0x21, 0x04, 0x13, 0x80 | 0x36, 0x20, 0x0C]);
    assert_eq!(init_commands(0xFF), [0x21, 0x04, 0x13, 0xFF, 0x20, 0x0C]);
    assert_eq!(address_commands(5, 2), [0x85, 0x42]);
    assert_eq!(ScreenCommand::ExtendedFunctionSet.value(), 0x21);
}

#[test]
fn flush_sends_address_then_whole_framebuffer() {
    let mut s = screen();
    assert_eq!(s.flush_commands(), [0x80, 0x40]);
    s.draw_px(0, 0, false);
    assert_eq!(s.framebuffer_bytes().len(), 504);
    assert_eq!(s.framebuffer_bytes()[0], 1);
}

#[test]
fn draw_px_reports_whether_on_screen() {
    let mut s = screen();
    assert!(s.draw_px(83, 47, false));
    assert!(s.get_pixel(83, 47));
    assert!(!s.draw_px(84, 0, false));
    assert!(!s.draw_px(-1, 5, false));
    assert!(s.draw_px(83, 47, true));
    assert!(!s.get_pixel(83, 47));
}

#[test]
fn backlight_toggles() {
    let mut s = screen();
    assert!(!s.backlight());
    assert!(s.toggle_backlight());
    assert!(!s.toggle_backlight());
}

#[test]
fn bresenham_line_pixels() {
    let mut s = screen();
    s.draw_line((0, 0), (5, 2));
    assert_eq!(lit(&s), vec![(0, 0), (1, 0), (2, 1), (3, 1), (4, 2), (5, 2)]);
}

#[test]
fn line_includes_both_endpoints_either_direction() {
    let mut s = screen();
    s.draw_line((10, 20), (3, 7));
    assert!(s.get_pixel(10, 20));
    assert!(s.get_pixel(3, 7));
    assert_eq!(lit(&s).len(), 14);
}

#[test]
fn line_clipped_at_screen_edge() {
    let mut s = screen();
    s.draw_line((-5, 3), (2, 3));
    assert_eq!(lit(&s), vec![(0, 3), (1, 3), (2, 3)]);
}

#[test]
fn single_point_line() {
    let mut s = screen();
    s.draw_line((7, 7), (7, 7));
    assert_eq!(lit(&s), vec![(7, 7)]);
}

#[test]
fn rect_outline_and_filled() {
    let mut s = screen();
    s.draw_rect((1, 1), 4, 3, false);
    assert_eq!(
        lit(&s),
        vec![(1, 1), (2, 1), (3, 1), (4, 1), (1, 2), (4, 2), (1, 3), (2, 3), (3, 3), (4, 3)]
    );
    let mut t = screen();
    t.draw_rect((1, 1), 4, 3, true);
    assert_eq!(lit(&t).len(), 12);
    let mut e = screen();
    e.draw_rect((1, 1), 0, 3, true);
    assert!(lit(&e).is_empty());
}

#[test]
fn circle_of_radius_two() {
    let mut s = screen();
    s.draw_circle((10, 10), 2, false);
    let mut expected = vec![
        (10, 8), (9, 8), (11, 8),
        (8, 9), (12, 9),
        (8, 10), (12, 10),
        (8, 11), (12, 11),
        (10, 12), (9, 12), (11, 12),
    ];
    expected.sort_by_key(|p| (p.1, p.0));
    assert_eq!(lit(&s), expected);
}

#[test]
fn filled_circle_is_solid() {
    let mut s = screen();
    s.draw_circle((10, 10), 2, true);
    for (x, y) in [(10, 10), (9, 9), (11, 11), (8, 10), (10, 12)] {
        assert!(s.get_pixel(x, y), "({x}, {y})");
    }
    assert!(!s.get_pixel(8, 8));
}

#[test]
fn round_rect_has_rounded_corners() {
    let mut s = screen();
    s.draw_round_rect((0, 0), 10, 8, 2, false);
    assert!(!s.get_pixel(0, 0));
    assert!(s.get_pixel(2, 0));
    assert!(s.get_pixel(0, 2));
    assert!(s.get_pixel(7, 7));
    assert!(s.get_pixel(9, 5));
    assert!(!s.get_pixel(5, 4));
    let mut f = screen();
    f.draw_round_rect((0, 0), 10, 8, 2, true);
    assert!(f.get_pixel(5, 4));
    assert!(!f.get_pixel(0, 0));
    assert!(!f.get_pixel(9, 7));
}

#[test]
fn round_rect_radius_limited_to_half_side() {
    let mut a = screen();
    a.draw_round_rect((0, 0), 6, 6, 50, false);
    let mut b = screen();
    b.draw_round_rect((0, 0), 6, 6, 3, false);
    assert_eq!(lit(&a), lit(&b));
}

#[test]
fn draw_char_draws_glyph_bits() {
    let mut s = screen();
    s.draw_char((2, 3), 'A', false);
    assert_eq!(
        lit(&s),
        vec![(3, 3), (2, 4), (4, 4), (2, 5), (3, 5), (4, 5), (2, 6), (4, 6), (2, 7), (4, 7)]
    );
    s.draw_char((2, 3), 'A', true);
    assert!(lit(&s).is_empty());
    s.draw_char((0, 0), 'é', false);
    s.draw_char((0, 0), '\u{1}', false);
    assert!(lit(&s).is_empty());
}

#[test]
fn draw_text_places_glyph_cells_and_lines() {
    let mut s = screen();
    s.draw_text((0, 0), "#\n#", false, false);
    assert!(s.get_pixel(0, 0) && s.get_pixel(2, 4));
    assert!(!s.get_pixel(3, 0));
    assert!(s.get_pixel(0, 6) && s.get_pixel(2, 10));
    let mut t = screen();
    t.draw_text((0, 0), "##", false, false);
    assert!(t.get_pixel(4, 0) && t.get_pixel(6, 4) && !t.get_pixel(3, 2));
}

#[test]
fn draw_text_soft_wraps_at_right_edge() {
    let mut s = screen();
    s.draw_text((80, 0), "##", true, false);
    assert!(s.get_pixel(80, 0));
    assert!(s.get_pixel(80, 6));
    let mut t = screen();
    t.draw_text((80, 0), "##", false, false);
    assert!(!t.get_pixel(80, 6));
}

#[test]
fn draw_text_stops_below_display() {
    let mut s = screen();
    s.draw_text((0, 46), "\n#", false, false);
    assert!(lit(&s).is_empty());
}

#[test]
fn filled_text_is_inverse_inside_box() {
    let mut s = screen();
    s.draw_filled_text((0, 0), "#");
    // Box width 1 * (3 + 1) + 9 = 13, height 15.
    assert!(s.get_pixel(4, 4));
    assert!(!s.get_pixel(5, 4));
    assert!(s.get_pixel(12, 7));
    assert!(!s.get_pixel(13, 7));
}

#[test]
fn fmt_writer_continues_between_writes() {
    let mut s = screen();
    let mut w = ScreenFmtWriter::new((0, 0), false, false);
    w.write_str(&mut s, "#");
    w.write_str(&mut s, "#");
    assert!(s.get_pixel(4, 0));
    w.write_str(&mut s, "\n#");
    assert!(s.get_pixel(0, 6));
}

#[test]
fn fmt_writer_wraps_after_glyph() {
    let mut s = screen();
    let mut w = ScreenFmtWriter::new((77, 0), true, false);
    w.write_str(&mut s, "##");
    assert!(s.get_pixel(77, 0));
    assert!(s.get_pixel(77, 6));
    assert!(!s.get_pixel(81, 0));
}

#[test]
fn clear_switches_everything_off() {
    let mut s = screen();
    s.draw_rect((0, 0), 84, 48, true);
    assert_eq!(lit(&s).len(), 84 * 48);
    s.clear();
    assert!(lit(&s).is_empty());
}

#[test]
fn legacy_screen_sends_pixel_updates() {
    let mut s = Screen::new();
    let ops = s.set_pixel(3, 10, true);
    assert_eq!(ops.len(), 3);
    assert!(matches!(ops[0], LcdOp::Command(0x83)));
    assert!(matches!(ops[1], LcdOp::Command(0x41)));
    match &ops[2] {
        LcdOp::Data(d) => assert_eq!(d, &vec![0b100]),
        other => panic!("unexpected {:?}", other),
    }
    assert!(s.set_pixel(84, 0, true).is_empty());
    let init = s.init(0x36);
    assert!(matches!(init[0], LcdOp::Reset));
    assert!(matches!(init[3], LcdOp::Command(0x14)));
    assert!(matches!(init[5], LcdOp::Command(0x22)));
    let clear = s.clear();
    match &clear[2] {
        LcdOp::Data(d) => assert!(d.len() == 504 && d.iter().all(|b| *b == 0)),
        other => panic!("unexpected {:?}", other),
    }
}

#[test]
fn fmt_writer_cursor_follows_the_text() {
    let mut s = screen();
    let mut w = ScreenFmtWriter::new((2, 3), false, false);
    assert_eq!(w.cursor(), (2, 3));
    w.write_str(&mut s, "##");
    assert_eq!(w.cursor(), (10, 3));
    w.write_str(&mut s, "\n");
    assert_eq!(w.cursor(), (2, 9));
}

#[test]
fn framebuffer_column_past_the_edge_lands_in_the_next_bank() {
    let mut f = Framebuffer::new();
    f.set_pixel(100, 3, true);
    assert_eq!(f.as_bytes()[100], 0b0000_1000);
    assert!(f.get_pixel(16, 11));
}

#[test]
fn filled_rect_of_width_one_or_two_stays_inside() {
    let mut s = screen();
    s.draw_rect((5, 5), 1, 4, true);
    assert_eq!(lit(&s), vec![(5, 5), (5, 6), (5, 7), (5, 8)]);
    let mut t = screen();
    t.draw_rect((5, 5), 2, 3, true);
    assert_eq!(lit(&t), vec![(5, 5), (6, 5), (5, 6), (6, 6), (5, 7), (6, 7)]);
}

#[test]
fn line_bytes_in_the_framebuffer() {
    let mut s = screen();
    s.draw_line((0, 0), (3, 1));
    let b = s.framebuffer_bytes();
    assert_eq!(&b[0..4], &[0x01, 0x01, 0x02, 0x02]);
    assert!(b[4..].iter().all(|v| *v == 0));
}

#[test]
fn text_split_at_newline_draws_the_second_part_one_line_lower() {
    let mut a = screen();
    a.draw_text((3, 2), "AB\n#A", false, false);
    let mut b = screen();
    b.draw_text((3, 2), "AB", false, false);
    b.draw_text((3, 8), "#A", false, false);
    assert_eq!(a.framebuffer_bytes(), b.framebuffer_bytes());
}

#[test]
fn writer_draws_what_draw_text_draws() {
    let mut a = screen();
    let mut w = ScreenFmtWriter::new((1, 40), false, false);
    w.write_str(&mut a, "AB\nBA\n#");
    let mut b = screen();
    b.draw_text((1, 40), "AB\nBA\n#", false, false);
    assert_eq!(a.framebuffer_bytes(), b.framebuffer_bytes());
}
