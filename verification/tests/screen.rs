use dvtr::{Color, ScreenBuffer, Style};

#[test]
fn red_text_scenario() {
    // Feed "\x1b[31mHi\x1b[0m" into a fresh 10x2 screen.
    let mut s = ScreenBuffer::new(10, 2);
    s.process(b"\x1b[31mHi\x1b[0m");
    assert_eq!(s.get(0, 0).ch, 'H');
    assert_eq!(s.get(0, 0).fg, Some(Color::Named(1)));
    assert_eq!(s.get(1, 0).ch, 'i');
    assert_eq!(s.get(1, 0).fg, Some(Color::Named(1)));
    assert_eq!(s.cursor(), (2, 0));
    assert_eq!(s.current_style(), Style::default());
}

#[test]
fn scroll_region_scenario() {
    // "\x1b[2;5r\x1b[2;1H" on an 80x24 screen: region rows 1..=4, cursor
    // to (0, 1); a line feed at row 4 scrolls only rows 1..=4.
    let mut s = ScreenBuffer::new(80, 24);
    // Put a marker at column 0 of rows 0..=5.
    for r in 0..6u8 {
        let seq = format!("\x1b[{};1H{}", r + 1, (b'A' + r) as char);
        s.process(seq.as_bytes());
    }
    s.process(b"\x1b[2;5r\x1b[2;1H");
    assert_eq!(s.cursor(), (0, 1));
    // Line feed at the region's bottom row (row 4).
    s.process(b"\x1b[5;1H\n");
    assert_eq!(s.get(0, 0).ch, 'A'); // above the region: untouched
    assert_eq!(s.get(0, 1).ch, 'C'); // rows 1..=3 shifted up
    assert_eq!(s.get(0, 2).ch, 'D');
    assert_eq!(s.get(0, 3).ch, 'E');
    assert_eq!(s.get(0, 4).ch, ' '); // vacated bottom row of the region
    assert_eq!(s.get(0, 5).ch, 'F'); // below the region: untouched
    // The region's top is not row 0, so nothing entered the scrollback.
    assert_eq!(s.scrollback_len(), 0);
}

#[test]
fn scrollback_cap_scenario() {
    // 25 newline-separated lines into a screen with scrollback cap 10
    // and height 24: exactly one line scrolls off.
    let mut s = ScreenBuffer::new(80, 24);
    s.set_scrollback_limit(10);
    for i in 0..25 {
        if i > 0 {
            s.process(b"\n");
        }
        s.process(b"x");
    }
    assert_eq!(s.scrollback_len(), 1);
    // Push far past the cap: the scrollback stays at the cap.
    for _ in 0..30 {
        s.process(b"\n");
    }
    assert_eq!(s.scrollback_len(), 10);
}

#[test]
fn malformed_input_is_absorbed() {
    let mut s = ScreenBuffer::new(7, 3);
    s.process(b"\x1b[999;999H\x1b[\xff\xfe\x80\x80\xc3");
    s.process(&[0x00, 0x01, 0x1b, b']', 0xff, 0x07, 0x9c, 0xf5, 0x80, 0x80, 0x80]);
    assert_eq!(s.width(), 7);
    assert_eq!(s.height(), 3);
    // Still fully usable afterwards.
    s.process(b"\x1b[1;1Hok");
    assert_eq!(s.get(0, 0).ch, 'o');
    assert_eq!(s.get(1, 0).ch, 'k');
}

#[test]
fn full_row_print_wraps() {
    let mut s = ScreenBuffer::new(5, 3);
    s.process(b"abcde");
    assert_eq!(s.cursor(), (0, 1));
    let expect = ['a', 'b', 'c', 'd', 'e'];
    for x in 0..5u16 {
        assert_eq!(s.get(x, 0).ch, expect[x as usize]);
    }
}

#[test]
fn sgr_reset_restores_default_style() {
    let mut s = ScreenBuffer::new(10, 2);
    s.process(b"\x1b[1;4;38;2;1;2;3;48;5;99m");
    assert_ne!(s.current_style(), Style::default());
    s.process(b"\x1b[0m");
    assert_eq!(s.current_style(), Style::default());
}

#[test]
fn alternate_screen_round_trip() {
    let mut s = ScreenBuffer::new(10, 4);
    s.process(b"hi there");
    s.process(b"\x1b[2;3H");
    let before: Vec<char> = (0..10u16)
        .flat_map(|x| (0..4u16).map(move |y| (x, y)))
        .map(|(x, y)| s.get(x, y).ch)
        .collect();
    let cursor_before = s.cursor();
    s.process(b"\x1b[?1049h");
    assert!(s.in_alternate());
    assert_eq!(s.get(0, 0).ch, ' '); // alternate screen starts clear
    s.process(b"full-screen app output");
    s.process(b"\x1b[?1049l");
    assert!(!s.in_alternate());
    let after: Vec<char> = (0..10u16)
        .flat_map(|x| (0..4u16).map(move |y| (x, y)))
        .map(|(x, y)| s.get(x, y).ch)
        .collect();
    assert_eq!(before, after);
    assert_eq!(s.cursor(), cursor_before);
}

#[test]
fn alternate_screen_keeps_scrollback_untouched() {
    let mut s = ScreenBuffer::new(10, 3);
    for _ in 0..5 {
        s.process(b"\n");
    }
    let archived = s.scrollback_len();
    assert!(archived > 0);
    s.process(b"\x1b[?1049h");
    for _ in 0..7 {
        s.process(b"\n");
    }
    assert_eq!(s.scrollback_len(), archived);
    s.process(b"\x1b[?1049l");
    assert_eq!(s.scrollback_len(), archived);
}

#[test]
fn split_utf8_decodes_like_whole() {
    let euro = "\u{20ac}".as_bytes(); // 3 bytes
    let mut whole = ScreenBuffer::new(10, 2);
    whole.process(euro);
    let mut split = ScreenBuffer::new(10, 2);
    split.process(&euro[..1]);
    split.process(&euro[1..]);
    assert_eq!(whole.get(0, 0).ch, '\u{20ac}');
    assert_eq!(split.get(0, 0).ch, '\u{20ac}');
    assert_eq!(whole.cursor(), split.cursor());
}

#[test]
fn split_escape_decodes_like_whole() {
    let seq = b"\x1b[3;4H";
    let mut whole = ScreenBuffer::new(20, 10);
    whole.process(seq);
    let mut split = ScreenBuffer::new(20, 10);
    split.process(&seq[..2]);
    split.process(&seq[2..4]);
    split.process(&seq[4..]);
    assert_eq!(whole.cursor(), (3, 2));
    assert_eq!(split.cursor(), (3, 2));
}

#[test]
fn invalid_utf8_is_dropped() {
    let mut s = ScreenBuffer::new(10, 2);
    // Overlong encoding of NUL, then a stray continuation byte.
    s.process(&[0xC0, 0x80, 0x80]);
    assert_eq!(s.get(0, 0).ch, ' ');
    assert_eq!(s.cursor(), (0, 0));
    // An aborted sequence reprocesses the offending byte as a fresh one.
    s.process(&[0xC3, b'A']);
    assert_eq!(s.get(0, 0).ch, 'A');
}

#[test]
fn osc_sets_title() {
    let mut s = ScreenBuffer::new(10, 2);
    assert!(s.title().is_none());
    s.process(b"\x1b]2;my title\x07");
    assert_eq!(s.title(), Some("my title"));
    // ESC backslash terminator and ignored codes.
    s.process(b"\x1b]7;other\x1b\\");
    assert_eq!(s.title(), Some("my title"));
    s.process(b"\x1b]0;nouveau\x1b\\");
    assert_eq!(s.title(), Some("nouveau"));
}

#[test]
fn erase_and_shift_operations() {
    let mut s = ScreenBuffer::new(8, 2);
    s.process(b"ABCDEFG");
    // Delete 2 characters at column 1: shifts left.
    s.process(b"\x1b[1;2H\x1b[2P");
    assert_eq!(s.get(0, 0).ch, 'A');
    assert_eq!(s.get(1, 0).ch, 'D');
    assert_eq!(s.get(2, 0).ch, 'E');
    // Insert one blank at column 1: shifts right.
    s.process(b"\x1b[1;2H\x1b[1@");
    assert_eq!(s.get(1, 0).ch, ' ');
    assert_eq!(s.get(2, 0).ch, 'D');
    // Erase to end of line from column 2.
    s.process(b"\x1b[1;3H\x1b[K");
    assert_eq!(s.get(1, 0).ch, ' ');
    assert_eq!(s.get(2, 0).ch, ' ');
    assert_eq!(s.get(7, 0).ch, ' ');
}

#[test]
fn erase_uses_current_background() {
    let mut s = ScreenBuffer::new(6, 2);
    s.process(b"\x1b[44mX\x1b[2J");
    assert_eq!(s.get(3, 1).bg, Some(Color::Named(4)));
    assert_eq!(s.get(3, 1).fg, None);
    assert_eq!(s.get(3, 1).ch, ' ');
}

#[test]
fn resize_keeps_overlap() {
    let mut s = ScreenBuffer::new(6, 3);
    s.process(b"abc");
    s.resize(4, 2);
    assert_eq!(s.width(), 4);
    assert_eq!(s.height(), 2);
    assert_eq!(s.get(0, 0).ch, 'a');
    assert_eq!(s.get(2, 0).ch, 'c');
    s.resize(10, 5);
    assert_eq!(s.get(0, 0).ch, 'a');
    assert_eq!(s.get(9, 4).ch, ' ');
}

#[test]
fn get_scrolled_blends_history() {
    let mut s = ScreenBuffer::new(4, 2);
    s.process(b"old\r\nmid\r\nnew");
    // One line scrolled off ("old").
    assert_eq!(s.scrollback_len(), 1);
    assert_eq!(s.get_scrolled(0, 0, 1).ch, 'o'); // top row from history
    assert_eq!(s.get_scrolled(0, 1, 1).ch, 'm'); // rest from the live grid
    assert_eq!(s.get_scrolled(0, 0, 0).ch, 'm'); // live view
}

#[test]
fn line_feed_below_region_moves_cursor() {
    let mut s = ScreenBuffer::new(20, 24);
    // Region rows 1..=4; cursor parked well below it, on a marked row.
    s.process(b"\x1b[11;1HX\x1b[2;5r\x1b[11;1H");
    assert_eq!(s.cursor(), (0, 10));
    s.process(b"\n");
    // Below the region a line feed only moves the cursor down.
    assert_eq!(s.cursor(), (0, 11));
    assert_eq!(s.get(0, 10).ch, 'X');
    assert_eq!(s.scrollback_len(), 0);
}
