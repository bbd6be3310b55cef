use microkernel::boot::{multiboot_header, MULTIBOOT_MAGIC};
use microkernel::interrupts::{InterruptIndex, PIC_1_OFFSET, PIC_2_OFFSET};
use microkernel::vga_buffer::{Color, ColorCode, Writer, BUFFER_HEIGHT, BUFFER_WIDTH};

fn row_text(w: &Writer, row: usize, len: usize) -> String {
    (0..len).map(|c| w.char_at(row, c) as char).collect()
}

#[test]
fn color_code_packs_background_high_and_foreground_low() {
    assert_eq!(ColorCode::new(Color::Yellow, Color::Black).code, 0x0E);
    assert_eq!(ColorCode::new(Color::White, Color::Blue).code, 0x1F);
    assert_eq!(ColorCode::new(Color::Black, Color::White).code, 0xF0);
}

#[test]
fn writer_starts_blank() {
    let w = Writer::new(ColorCode::new(Color::Yellow, Color::Black));
    assert_eq!(w.column_position, 0);
    for row in 0..BUFFER_HEIGHT {
        for col in 0..BUFFER_WIDTH {
            assert_eq!(w.char_at(row, col), b' ');
        }
    }
}

#[test]
fn write_byte_lands_in_bottom_row() {
    let mut w = Writer::new(ColorCode::new(Color::Yellow, Color::Black));
    w.write_byte(b'H');
    w.write_byte(b'i');
    assert_eq!(w.char_at(BUFFER_HEIGHT - 1, 0), b'H');
    assert_eq!(w.char_at(BUFFER_HEIGHT - 1, 1), b'i');
    assert_eq!(w.column_position, 2);
}

#[test]
fn newline_scrolls_rows_up() {
    let mut w = Writer::new(ColorCode::new(Color::Yellow, Color::Black));
    w.write_string("AB\n");
    assert_eq!(&row_text(&w, BUFFER_HEIGHT - 2, 2), "AB");
    assert_eq!(w.char_at(BUFFER_HEIGHT - 1, 0), b' ');
    assert_eq!(w.column_position, 0);
    w.write_string("CD\n");
    assert_eq!(&row_text(&w, BUFFER_HEIGHT - 3, 2), "AB");
    assert_eq!(&row_text(&w, BUFFER_HEIGHT - 2, 2), "CD");
}

#[test]
fn long_line_wraps_at_buffer_width() {
    let mut w = Writer::new(ColorCode::new(Color::Yellow, Color::Black));
    let line: String = std::iter::repeat('x').take(BUFFER_WIDTH + 1).collect();
    w.write_string(&line);
    // The first eighty landed in the bottom row, then the line wrapped:
    // they scrolled up and the eighty-first starts the new bottom row.
    assert_eq!(w.char_at(BUFFER_HEIGHT - 2, BUFFER_WIDTH - 1), b'x');
    assert_eq!(w.char_at(BUFFER_HEIGHT - 1, 0), b'x');
    assert_eq!(w.char_at(BUFFER_HEIGHT - 1, 1), b' ');
    assert_eq!(w.column_position, 1);
}

#[test]
fn unprintable_bytes_become_replacement_block() {
    let mut w = Writer::new(ColorCode::new(Color::Yellow, Color::Black));
    w.write_string("a\u{1}b");
    assert_eq!(w.char_at(BUFFER_HEIGHT - 1, 0), b'a');
    assert_eq!(w.char_at(BUFFER_HEIGHT - 1, 1), 0xfe);
    assert_eq!(w.char_at(BUFFER_HEIGHT - 1, 2), b'b');
}

#[test]
fn clear_screen_blanks_everything_and_keeps_column() {
    let mut w = Writer::new(ColorCode::new(Color::Yellow, Color::Black));
    w.write_string("hello\nworld");
    let col = w.column_position;
    w.clear_screen();
    assert_eq!(w.column_position, col);
    for row in 0..BUFFER_HEIGHT {
        for c in 0..BUFFER_WIDTH {
            assert_eq!(w.char_at(row, c), b' ');
        }
    }
}

#[test]
fn ping_pong_console_lines_in_order() {
    // The two lines the exchange prints, in order, on the model console.
    let mut w = Writer::new(ColorCode::new(Color::Yellow, Color::Black));
    w.write_string("pong: received message: 42\n");
    w.write_string("ping: received reply: 43\n");
    assert_eq!(&row_text(&w, BUFFER_HEIGHT - 3, 27), "pong: received message: 42 ");
    assert_eq!(&row_text(&w, BUFFER_HEIGHT - 2, 25), "ping: received reply: 43 ");
}

#[test]
fn interrupt_vectors_sit_at_remapped_base() {
    assert_eq!(PIC_1_OFFSET, 32);
    assert_eq!(PIC_2_OFFSET, 40);
    assert_eq!(InterruptIndex::Timer.as_u8(), 0x20);
    assert_eq!(InterruptIndex::Keyboard.as_u8(), 0x21);
    assert_eq!(InterruptIndex::Timer.as_usize(), 32);
    assert_eq!(InterruptIndex::Keyboard.as_usize(), 33);
}

#[test]
fn multiboot_header_checksum_balances_the_fields() {
    let h = multiboot_header();
    assert_eq!(h.magic, MULTIBOOT_MAGIC);
    assert_eq!(h.magic, 0x1BAD_B002);
    assert_eq!(h.flags, 0);
    assert_eq!(h.checksum, 0xE452_4FFE);
    assert_eq!(h.magic.wrapping_add(h.flags).wrapping_add(h.checksum), 0);
}
