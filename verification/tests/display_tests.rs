use popcorn::console::{CommandToWriter, Writer as ConsoleWriter};
use popcorn::output::MessageToVga;
use popcorn::vga_buffer::{convert_to_color, Char, Color, ColorCode};
use popcorn::vga_video::VGABuffer;
use popcorn::writer::Writer;

#[test]
fn color_code_packs_nibbles() {
    let code = ColorCode::new(Color::Yellow, Color::Black);
    assert_eq!(code.0, 0x0e);
    let code = ColorCode::new(Color::White, Color::Red);
    assert_eq!(code.0, 0x4f);
    assert_eq!(code.get_colors(), (0x0f, 0x04));
}

#[test]
fn color_code_invert_swaps_and_double_invert_restores() {
    let mut code = ColorCode::new(Color::Yellow, Color::Red);
    let original = code;
    code.invert();
    assert_eq!(code.get_colors(), (0x04, 0x0e));
    code.invert();
    assert_eq!(code, original);
}

#[test]
fn char_invert_colors_keeps_character() {
    let mut c = Char { ascii_character: b'x', color_code: ColorCode::new(Color::Blue, Color::Green) };
    c.invert_colors();
    assert_eq!(c.ascii_character, b'x');
    assert_eq!(c.color_code.get_colors(), (0x02, 0x01));
}

#[test]
fn convert_to_color_round_trips_and_saturates() {
    let all = [
        Color::Black, Color::Blue, Color::Green, Color::Cyan, Color::Red, Color::Magenta,
        Color::Brown, Color::LightGray, Color::DarkGray, Color::LightBlue, Color::LightGreen,
        Color::LightCyan, Color::LightRed, Color::Pink, Color::Yellow, Color::White,
    ];
    for c in all {
        assert_eq!(convert_to_color(c.as_u8()), c);
    }
    assert_eq!(convert_to_color(0x10), Color::Black);
    assert_eq!(convert_to_color(0xff), Color::Black);
}

#[test]
fn writer_places_bytes_on_the_bottom_row() {
    let mut w = Writer::new(Color::Yellow, Color::Black);
    w.write_byte(b'A');
    w.write_byte(b'B');
    assert_eq!(w.buffer[1920].ascii_character, b'A');
    assert_eq!(w.buffer[1921].ascii_character, b'B');
    assert_eq!(w.column_position, 2);
}

#[test]
fn writer_newline_scrolls_up() {
    let mut w = Writer::new(Color::Yellow, Color::Black);
    w.write_byte(b'A');
    w.write_byte(b'\n');
    // the byte moved up one row, the bottom row is blank
    assert_eq!(w.buffer[1920 - 80].ascii_character, b'A');
    assert_eq!(w.buffer[1920].ascii_character, b' ');
    assert_eq!(w.column_position, 0);
}

#[test]
fn writer_wraps_a_full_row() {
    let mut w = Writer::new(Color::Yellow, Color::Black);
    for _ in 0..80 {
        w.write_byte(b'x');
    }
    assert_eq!(w.column_position, 80);
    w.write_byte(b'y');
    // the row scrolled and the new byte starts the fresh bottom row
    assert_eq!(w.buffer[1920 - 80].ascii_character, b'x');
    assert_eq!(w.buffer[1920].ascii_character, b'y');
    assert_eq!(w.column_position, 1);
}

#[test]
fn writer_substitutes_unprintable_bytes() {
    let mut w = Writer::new(Color::Yellow, Color::Black);
    w.write_string("a\u{7f}");
    assert_eq!(w.buffer[1920].ascii_character, b'a');
    assert_eq!(w.buffer[1921].ascii_character, 0xfe);
}

#[test]
fn writer_clear_screen_blanks_and_homes() {
    let mut w = Writer::new(Color::Yellow, Color::Black);
    w.write_string("hello");
    w.clear_screen(Color::Red);
    for i in 0..2000 {
        assert_eq!(w.buffer[i].ascii_character, b' ');
        assert_eq!(w.buffer[i].color_code.get_colors(), (0x04, 0x04));
    }
    assert_eq!(w.column_position, 0);
}

#[test]
fn writer_ignores_out_of_range_cursor() {
    let mut w = Writer::new(Color::Yellow, Color::Black);
    w.set_cursor_pos(0, 17);
    assert_eq!(w.column_position, 17);
    w.set_cursor_pos(25, 3);
    assert_eq!(w.column_position, 17);
    w.set_cursor_pos(3, 80);
    assert_eq!(w.column_position, 17);
}

#[test]
fn console_write_byte_lands_after_the_moved_cursor() {
    let mut w = ConsoleWriter::new(0, Color::Yellow, Color::Black);
    w.write_byte(b'a');
    // the console writer advances the cursor first and writes under it
    assert_eq!(w.column_position, 1);
    assert_eq!(w.buffer[1921].ascii_character, b'a');
}

#[test]
fn console_backspace_erases_and_steps_back() {
    let mut w = ConsoleWriter::new(0, Color::Yellow, Color::Black);
    w.write_byte(b'a');
    w.write_byte(b'b');
    assert_eq!(w.buffer[1922].ascii_character, b'b');
    w.handle_command(CommandToWriter::Backspace);
    assert_eq!(w.buffer[1922].ascii_character, b' ');
    assert_eq!(w.column_position, 1);
    w.handle_command(CommandToWriter::Backspace);
    assert_eq!(w.column_position, 0);
    // at the line start a further backspace does nothing
    let col_before = w.column_position;
    w.handle_command(CommandToWriter::Backspace);
    assert_eq!(w.column_position, col_before);
}

#[test]
fn console_cursor_commands_respect_the_input_edge() {
    let mut w = ConsoleWriter::new(50, Color::Yellow, Color::Black);
    w.handle_command(CommandToWriter::CursorFront);
    assert_eq!(w.column_position, 50);
    w.handle_command(CommandToWriter::CursorBack);
    assert_eq!(w.column_position, 49);
    w.handle_command(CommandToWriter::CursorFront);
    assert_eq!(w.column_position, 50);
}

#[test]
fn console_print_writes_each_byte() {
    let mut w = ConsoleWriter::new(0, Color::Yellow, Color::Black);
    w.handle_command(CommandToWriter::Print(String::from("ab")));
    assert_eq!(w.buffer[1921].ascii_character, b'a');
    assert_eq!(w.buffer[1922].ascii_character, b'b');
    assert_eq!(w.column_position, 2);
}

#[test]
fn console_set_color_changes_subsequent_writes() {
    let mut w = ConsoleWriter::new(0, Color::Yellow, Color::Black);
    w.handle_command(CommandToWriter::SetColor(Color::White, Color::Red));
    assert_eq!(w.color_code.0, 0x4f);
    w.write_byte(b'z');
    assert_eq!(w.buffer[1921].color_code.0, 0x4f);
}

#[test]
fn message_to_vga_becomes_color_then_print() {
    let m = MessageToVga::new(Color::LightBlue, Color::Black, String::from("hi"));
    let cmds = m.to_commands();
    assert_eq!(cmds.len(), 2);
    assert!(matches!(cmds[0], CommandToWriter::SetColor(Color::LightBlue, Color::Black)));
    match &cmds[1] {
        CommandToWriter::Print(s) => assert_eq!(s, "hi"),
        _ => panic!("expected a print command"),
    }
}

#[test]
fn pixel_buffer_paints_and_reads_back() {
    let mut v = VGABuffer::new(8, 4, 0x3);
    assert_eq!(v.get_pixel(5, 2), 0x3);
    v.draw_pixel(5, 2, 0xc);
    assert_eq!(v.get_pixel(5, 2), 0xc);
    // out-of-buffer positions are ignored
    v.draw_pixel(5, 9, 0x1);
    assert_eq!(v.buffer.iter().filter(|p| **p == 0x1).count(), 0);
}

#[test]
fn draw_line_paints_the_diagonal() {
    let mut v = VGABuffer::new(5, 5, 0);
    v.draw_line(0, 0, 4, 4, 0xf);
    for i in 0..5 {
        assert_eq!(v.get_pixel(i, i), 0xf);
    }
    assert_eq!(v.get_pixel(1, 0), 0);
}

#[test]
fn draw_line_handles_all_directions_and_degenerate_lines() {
    let mut v = VGABuffer::new(5, 5, 0);
    v.draw_line(4, 4, 0, 0, 0x1);
    assert_eq!(v.get_pixel(0, 0), 0x1);
    v.draw_line(0, 4, 4, 0, 0x2);
    assert_eq!(v.get_pixel(4, 0), 0x2);
    v.draw_line(2, 2, 2, 2, 0x3);
    assert_eq!(v.get_pixel(2, 2), 0x3);
    v.draw_line(0, 1, 4, 1, 0x4);
    for x in 0..5 {
        assert_eq!(v.get_pixel(x, 1), 0x4);
    }
}

#[test]
fn blit_copies_the_source_rectangle() {
    let mut dst = VGABuffer::new(4, 3, 0);
    let mut src = VGABuffer::new(2, 2, 0);
    src.buffer = vec![1, 2, 3, 4];
    dst.blit_buffer(1, 1, &mut src);
    assert_eq!(dst.buffer, vec![0, 0, 0, 0, 0, 1, 2, 0, 0, 3, 4, 0]);
    assert_eq!(src.buffer, vec![1, 2, 3, 4]);
}

#[test]
fn blit_clips_to_the_target_extent() {
    let mut dst = VGABuffer::new(2, 2, 9);
    let mut src = VGABuffer::new(3, 3, 7);
    dst.blit_buffer(1, 1, &mut src);
    // only the one overlapping pixel changes
    assert_eq!(dst.buffer, vec![9, 9, 9, 7]);
    assert!(src.buffer.iter().all(|p| *p == 7));
}

#[test]
fn blit_at_origin_with_equal_sizes_copies_everything() {
    let mut dst = VGABuffer::new(2, 2, 0);
    let mut src = VGABuffer::new(2, 2, 0);
    src.buffer = vec![5, 6, 7, 8];
    dst.blit_buffer(0, 0, &mut src);
    assert_eq!(dst.buffer, vec![5, 6, 7, 8]);
}
