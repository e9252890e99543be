use minikernel::vga::{clear, print, Color, ColorCode, ScreenChar, Writer};

fn row_text(writer: &Writer, row: usize) -> String {
    let mut text = String::new();
    for col in 0..80 {
        text.push(writer.char_at(row, col).ascii_character as char);
    }
    text.trim_end().to_string()
}

fn green() -> ColorCode {
    ColorCode::new(Color::LightGreen, Color::Black)
}

#[test]
fn color_codes_pack_background_and_foreground() {
    assert_eq!(ColorCode::new(Color::LightGreen, Color::Black), ColorCode(0x0a));
    assert_eq!(ColorCode::new(Color::White, Color::Blue), ColorCode(0x1f));
    assert_eq!(ColorCode::new(Color::Black, Color::White), ColorCode(0xf0));
    assert_eq!(ColorCode::new(Color::Yellow, Color::Red), ColorCode(0x4e));
}

#[test]
fn colors_have_their_codes() {
    let colors = [
        Color::Black,
        Color::Blue,
        Color::Green,
        Color::Cyan,
        Color::Red,
        Color::Magenta,
        Color::Brown,
        Color::LightGray,
        Color::DarkGray,
        Color::LightBlue,
        Color::LightGreen,
        Color::LightCyan,
        Color::LightRed,
        Color::Pink,
        Color::Yellow,
        Color::White,
    ];
    for (index, color) in colors.iter().enumerate() {
        assert_eq!(color.code() as usize, index);
    }
}

#[test]
fn new_writer_shows_an_empty_screen() {
    let writer = Writer::new(green());
    assert_eq!(writer.column_position(), 0);
    assert_eq!(writer.color_code(), ColorCode(0x0a));
    for row in 0..25 {
        for col in 0..80 {
            assert_eq!(
                writer.char_at(row, col),
                ScreenChar { ascii_character: b' ', color_code: ColorCode(0x0a) }
            );
        }
    }
}

#[test]
fn bytes_go_to_the_bottom_row() {
    let mut writer = Writer::new(green());
    writer.write_byte(b'H');
    writer.write_byte(b'i');
    assert_eq!(writer.column_position(), 2);
    assert_eq!(
        writer.char_at(24, 0),
        ScreenChar { ascii_character: b'H', color_code: ColorCode(0x0a) }
    );
    assert_eq!(
        writer.char_at(24, 1),
        ScreenChar { ascii_character: b'i', color_code: ColorCode(0x0a) }
    );
    assert_eq!(writer.char_at(24, 2).ascii_character, b' ');
    assert_eq!(row_text(&writer, 23), "");
}

#[test]
fn newline_moves_rows_up() {
    let mut writer = Writer::new(green());
    writer.write_str("first\nsecond\nthird");
    assert_eq!(row_text(&writer, 22), "first");
    assert_eq!(row_text(&writer, 23), "second");
    assert_eq!(row_text(&writer, 24), "third");
    assert_eq!(writer.column_position(), 5);
    writer.new_line();
    assert_eq!(row_text(&writer, 21), "first");
    assert_eq!(row_text(&writer, 22), "second");
    assert_eq!(row_text(&writer, 23), "third");
    assert_eq!(row_text(&writer, 24), "");
    assert_eq!(writer.column_position(), 0);
}

#[test]
fn full_row_wraps_before_the_next_byte() {
    let mut writer = Writer::new(green());
    for _ in 0..80 {
        writer.write_byte(b'x');
    }
    assert_eq!(writer.column_position(), 80);
    assert_eq!(row_text(&writer, 24), "x".repeat(80));
    assert_eq!(row_text(&writer, 23), "");
    writer.write_byte(b'y');
    assert_eq!(writer.column_position(), 1);
    assert_eq!(row_text(&writer, 23), "x".repeat(80));
    assert_eq!(row_text(&writer, 24), "y");
}

#[test]
fn top_row_scrolls_off() {
    let mut writer = Writer::new(green());
    for line in 0..30 {
        print(&mut writer, &format!("line {}\n", line));
    }
    assert_eq!(row_text(&writer, 0), "line 6");
    assert_eq!(row_text(&writer, 23), "line 29");
    assert_eq!(row_text(&writer, 24), "");
}

#[test]
fn print_writes_text_as_bytes() {
    let mut writer = Writer::new(green());
    print(&mut writer, "start: 0x100000, len: 0xf00000");
    assert_eq!(row_text(&writer, 24), "start: 0x100000, len: 0xf00000");
    assert_eq!(writer.column_position(), 30);
    print(&mut writer, "");
    assert_eq!(writer.column_position(), 30);
    let mut other = Writer::new(green());
    print(&mut other, "\u{e9}");
    assert_eq!(other.char_at(24, 0).ascii_character, 0xc3);
    assert_eq!(other.char_at(24, 1).ascii_character, 0xa9);
    assert_eq!(other.column_position(), 2);
}

#[test]
fn clear_empties_every_row() {
    let mut writer = Writer::new(ColorCode::new(Color::White, Color::Blue));
    print(&mut writer, "one\ntwo\nthree");
    clear(&mut writer);
    assert_eq!(writer.column_position(), 0);
    for row in 0..25 {
        for col in 0..80 {
            assert_eq!(
                writer.char_at(row, col),
                ScreenChar { ascii_character: b' ', color_code: ColorCode(0x1f) }
            );
        }
    }
    print(&mut writer, "again");
    assert_eq!(row_text(&writer, 24), "again");
}
