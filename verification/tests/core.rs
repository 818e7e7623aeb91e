//! Layouts, pictures in the output, input, editing, frames and the mark.

use g_terminal::agent::{encode, FrameError, Method, Request, MAX_FRAME, VERSION};
use g_terminal::appicon::{pixels, rounded_hit, segment_hit, ACCENT, SURFACE};
use g_terminal::editing::{
    byte_index, cut, ime_composing, paste, replace_chars, select_all, swallow_ime_keys, track_ime,
};
use g_terminal::graphics::{decode, OscScanner, Token};
use g_terminal::icons::{Icon, Size};
use g_terminal::input::{
    encode_key, encode_mouse, encode_paste, ImeEvent, InputEvent, Key, Modifiers,
    MouseProtocolEncoding,
};
use g_terminal::layout::{Axis, Layout, Single};
use g_terminal::text::{decimal_string, parse_number, split_lines, split_words, trim};

#[test]
fn nested_splits_collapse_and_remap_after_close() {
    let mut l = Layout::Leaf(0);
    l.split(0, 1, Axis::Horizontal);
    l.split(1, 2, Axis::Vertical);
    assert!(l.valid(3));
    let l = l.remove(1).unwrap();
    assert!(l.valid(2));
    assert!(l.remove(0).unwrap().valid(1));
}

#[test]
fn removing_a_fresh_split_gives_the_layout_back() {
    let mut l = Layout::Leaf(0);
    l.split(0, 1, Axis::Horizontal);
    let before = format!("{l:?}");
    l.split(1, 2, Axis::Vertical);
    assert_eq!(format!("{:?}", l.remove(2).unwrap()), before);
    // Whatever pane is split, and with gaps between the indices.
    for target in [0, 1, 7, 9] {
        let mut l = Layout::Leaf(0);
        l.split(0, 7, Axis::Horizontal);
        let before = format!("{l:?}");
        l.split(target, 9, Axis::Vertical);
        assert_eq!(format!("{:?}", l.remove(9).unwrap()), before);
    }
    assert!(Layout::Leaf(0).remove(0).is_none());
    assert!(!Layout::Leaf(1).valid(1));
    let broken = Layout::Split {
        axis: Axis::Vertical,
        ratio: Single { bits: f32::NAN.to_bits() },
        first: Box::new(Layout::Leaf(0)),
        second: Box::new(Layout::Leaf(1)),
    };
    assert!(!broken.valid(2));
}

fn fed(scanner: &mut OscScanner, bytes: &[u8]) -> (Vec<u8>, Vec<Vec<u8>>) {
    let mut text = vec![];
    let mut pictures = vec![];
    for t in scanner.feed(bytes) {
        match t {
            Token::Text(v) => text.extend(v),
            Token::Image(v) => pictures.push(v),
        }
    }
    (text, pictures)
}

#[test]
fn osc_split_packets_keep_titles_and_extract_images() {
    let mut scanner = OscScanner::default();
    let mut tokens = vec![];
    for b in b"a\x1b]2;title\x07b\x1b]1337;File=inline=1:aGk=\x1b\\c" {
        tokens.extend(scanner.feed(&[*b]));
    }
    let mut text = vec![];
    let mut pictures = vec![];
    for t in tokens {
        match t {
            Token::Text(v) => text.extend(v),
            Token::Image(v) => pictures.push(v),
        }
    }
    assert_eq!(text, b"a\x1b]2;title\x07bc");
    assert_eq!(pictures, vec![b"hi".to_vec()]);
}

#[test]
fn pictures_that_are_not_shown_or_not_encoded_are_dropped() {
    let mut scanner = OscScanner::default();
    let (text, pictures) = fed(
        &mut scanner,
        b"x\x1b]1337;File=inline=0:aGk=\x07y\x1b]1337;File=inline=1:!!\x07z",
    );
    assert_eq!(text, b"xyz");
    assert!(pictures.is_empty());
}

#[test]
fn output_without_commands_comes_through_unchanged() {
    let mut scanner = OscScanner::default();
    let (text, pictures) = fed(&mut scanner, b"plain \x1b[31mred\x1b[0m");
    assert_eq!(text, b"plain \x1b[31mred\x1b[0m");
    assert!(pictures.is_empty());
    let mut whole = OscScanner::default();
    let (at_once, _) = fed(&mut whole, b"a\x1b]0;t\x07b");
    let mut parts = OscScanner::default();
    let (mut in_parts, _) = fed(&mut parts, b"a\x1b");
    in_parts.extend(fed(&mut parts, b"]0;t\x07").0);
    in_parts.extend(fed(&mut parts, b"b").0);
    assert_eq!(at_once, in_parts);
}

/// Pieces of a scanner, with neighbouring text joined.
fn joined(pieces: Vec<Token>) -> Vec<(bool, Vec<u8>)> {
    let mut out: Vec<(bool, Vec<u8>)> = vec![];
    for piece in pieces {
        match (piece, out.last_mut()) {
            (Token::Text(t), Some((false, before))) => before.extend(t),
            (Token::Text(t), _) => out.push((false, t)),
            (Token::Image(p), _) => out.push((true, p)),
        }
    }
    out
}

#[test]
fn cutting_the_output_keeps_text_and_pictures_in_order() {
    let bytes = b"a\x1b]1337;File=inline=1:aGk=\x07b\x1b]0;t\x07\x1b]1337;File=inline=1:!\x07c";
    let whole = joined(OscScanner::default().feed(bytes));
    assert_eq!(
        whole,
        vec![
            (false, b"a".to_vec()),
            (true, b"hi".to_vec()),
            (false, b"b\x1b]0;t\x07c".to_vec()),
        ]
    );
    for at in 0..bytes.len() {
        let mut scanner = OscScanner::default();
        let mut parts = scanner.feed(&bytes[..at]);
        parts.extend(scanner.feed(&bytes[at..]));
        assert_eq!(joined(parts), whole);
    }
}

#[test]
fn a_picture_file_is_decoded_to_its_pixels() {
    let rgba: Vec<u8> = vec![255, 0, 0, 255, 0, 255, 0, 128];
    let mut file = std::io::Cursor::new(Vec::new());
    image::write_buffer_with_format(
        &mut file,
        &rgba,
        2,
        1,
        image::ExtendedColorType::Rgba8,
        image::ImageFormat::Png,
    )
    .unwrap();
    let picture = decode(file.get_ref()).unwrap();
    assert_eq!((picture.width, picture.height), (2, 1));
    assert_eq!(picture.rgba, rgba);
    assert!(decode(b"no picture").is_none());
    let mut wide = std::io::Cursor::new(Vec::new());
    image::write_buffer_with_format(
        &mut wide,
        &vec![0; 4097],
        4097,
        1,
        image::ExtendedColorType::L8,
        image::ImageFormat::Png,
    )
    .unwrap();
    assert!(decode(wide.get_ref()).is_none());
}

#[test]
fn sgr_mouse_reports_coordinates_modifiers_and_release() {
    assert_eq!(
        encode_mouse(
            0,
            9,
            4,
            false,
            Modifiers::control(),
            MouseProtocolEncoding::Sgr
        ),
        b"\x1b[<16;10;5M"
    );
    assert_eq!(
        encode_mouse(
            0,
            9,
            4,
            true,
            Modifiers::none(),
            MouseProtocolEncoding::Sgr
        ),
        b"\x1b[<0;10;5m"
    );
    assert_eq!(
        encode_mouse(
            64,
            0,
            0,
            false,
            Modifiers::none(),
            MouseProtocolEncoding::Default
        ),
        vec![27, b'[', b'M', 96, 33, 33]
    );
}

#[test]
fn mouse_positions_beyond_the_encoding_stop_at_its_end() {
    assert_eq!(
        encode_mouse(0, 500, 94, false, Modifiers::none(), MouseProtocolEncoding::Default),
        vec![27, b'[', b'M', 32, 255, 127]
    );
    let mut expected = vec![27, b'[', b'M', 35];
    for c in [char::from_u32(533).unwrap(), char::from_u32(2047).unwrap()] {
        let mut buffer = [0; 4];
        expected.extend_from_slice(c.encode_utf8(&mut buffer).as_bytes());
    }
    assert_eq!(
        encode_mouse(0, 500, 9000, true, Modifiers::none(), MouseProtocolEncoding::Utf8),
        expected
    );
}

#[test]
fn keys_preserve_shell_controls_and_cursor_modes() {
    assert_eq!(encode_key(Key::C, Modifiers::control(), false), Some(vec![3]));
    assert_eq!(
        encode_key(Key::ArrowUp, Modifiers::none(), true),
        Some(b"\x1bOA".to_vec())
    );
    assert_eq!(
        encode_key(Key::ArrowLeft, Modifiers::control(), false),
        Some(b"\x1b[1;5D".to_vec())
    );
}

#[test]
fn other_keys_have_their_sequences() {
    let none = Modifiers::none();
    let alt = Modifiers { alt: true, ..none };
    let shift = Modifiers { shift: true, ..none };
    assert_eq!(encode_key(Key::F5, none, false), Some(b"\x1b[15~".to_vec()));
    assert_eq!(encode_key(Key::Delete, shift, false), Some(b"\x1b[3;2~".to_vec()));
    assert_eq!(encode_key(Key::Tab, shift, false), Some(b"\x1b[Z".to_vec()));
    assert_eq!(encode_key(Key::Backspace, alt, false), Some(vec![27, 127]));
    assert_eq!(encode_key(Key::F1, none, false), Some(b"\x1bOP".to_vec()));
    assert_eq!(encode_key(Key::A, none, false), None);
}

#[test]
fn paste_normalizes_line_endings_and_removes_escape() {
    assert_eq!(encode_paste("a\r\nb", false), b"a\rb");
    assert_eq!(
        encode_paste("a\x1b[201~", true),
        b"\x1b[200~a[201~\x1b[201~"
    );
}

#[test]
fn lone_returns_are_line_ends_too() {
    assert_eq!(encode_paste("a\rb\nc", false), b"a\rb\rc");
    assert_eq!(encode_paste("a\rb\r\n", true), b"\x1b[200~a\nb\n\x1b[201~");
    assert_eq!(encode_paste("", false), b"");
}

fn enter() -> InputEvent {
    InputEvent::Key {
        key: Key::Enter,
        pressed: true,
        mods: Modifiers::none(),
    }
}

#[test]
fn an_open_candidate_list_takes_enter_but_not_the_text() {
    let mut events = vec![
        InputEvent::Ime(ImeEvent::Preedit("lianjie".into())),
        enter(),
        InputEvent::Text("a".into()),
    ];
    swallow_ime_keys(&mut events);
    assert_eq!(events.len(), 2, "{events:?}");
    assert!(matches!(events[1], InputEvent::Text(_)));
}

#[test]
fn a_composition_lasts_until_it_is_committed() {
    let open = vec![InputEvent::Ime(ImeEvent::Preedit("l".into())), enter()];
    assert!(ime_composing(false, &open));
    assert!(track_ime(false, &open));
    let done = vec![InputEvent::Ime(ImeEvent::Commit("连".into()))];
    assert!(ime_composing(true, &done));
    assert!(!track_ime(true, &done));
    assert!(!ime_composing(false, &vec![enter()]));
}

#[test]
fn replacing_a_character_range_keeps_utf8_intact() {
    let mut text = "ab中文cd".to_string();
    replace_chars(&mut text, 2..4, "X");
    assert_eq!(text, "abXcd");
    // Insert at the front, where every following byte offset has shifted.
    replace_chars(&mut text, 0..0, "你");
    assert_eq!(text, "你abXcd");
    assert_eq!(byte_index("你ab", 1), 3);
}

#[test]
fn brackets_and_line_ends_are_all_that_tells_pastes_apart() {
    for text in ["", "a\r\nb\rc\nd", "\x1b[31mé中\n\n\r\r\n", "plain"] {
        let plain = encode_paste(text, false);
        let bracketed = encode_paste(text, true);
        assert!(bracketed.starts_with(b"\x1b[200~") && bracketed.ends_with(b"\x1b[201~"));
        let inner: Vec<u8> = bracketed[6..bracketed.len() - 6]
            .iter()
            .map(|b| if *b == b'\n' { b'\r' } else { *b })
            .collect();
        assert_eq!(inner, plain);
        let again = String::from_utf8(plain.clone()).unwrap();
        assert_eq!(encode_paste(&again, false), plain);
    }
}

#[test]
fn places_behind_the_end_of_a_field_are_its_end() {
    let mut text = "你abXcd".to_string();
    replace_chars(&mut text, 9..7, "!");
    assert_eq!(text, "你abXcd!");
    assert_eq!(cut(&mut text, 5..99), 5);
    assert_eq!(text, "你abXc");
    assert_eq!(paste(&mut text, Some(8..7), "é"), 9);
    assert_eq!(text, "你abXcé");
}

#[test]
fn cutting_and_pasting_move_the_caret() {
    let mut text = "ab中文cd".to_string();
    assert_eq!(cut(&mut text, 1..3), 1);
    assert_eq!(text, "a文cd");
    assert_eq!(paste(&mut text, Some(1..2), "xy"), 3);
    assert_eq!(text, "axycd");
    assert_eq!(paste(&mut text, None, "中"), 6);
    assert_eq!(text, "axycd中");
    assert_eq!(select_all(&text), (0, 6));
    assert_eq!(byte_index("ab", 9), 2);
}

#[test]
fn the_mark_is_opaque_and_carries_both_colours() {
    let icon = pixels(32);
    assert_eq!(icon.len(), 32 * 32 * 4);
    let opaque = icon.chunks(4).filter(|p| p[3] == 255).count();
    assert!(opaque > 32 * 32 / 2, "only {opaque} pixels are opaque");
    let accent = icon.chunks(4).filter(|p| p[..3] == ACCENT).count();
    let surface = icon.chunks(4).filter(|p| p[..3] == SURFACE).count();
    assert!(accent > 0, "the prompt is missing");
    assert!(surface > 0, "the body is missing");
}

#[test]
fn the_smallest_marks_are_drawn_too() {
    assert_eq!(pixels(0), vec![0, 0, 0, 0]);
    assert_eq!(pixels(1).len(), 4);
    let icon = pixels(16);
    assert_eq!(icon[..4], [0, 0, 0, 0]);
    let middle = (8 * 16 + 4) * 4;
    assert_eq!(icon[middle + 3], 255);
}

#[test]
fn the_mark_is_what_its_proportions_say() {
    let near = |size: u32, x: u32, y: u32| -> [u8; 4] {
        let s = size as f64;
        let (px, py) = (x as f64 + 0.5, y as f64 + 0.5);
        let (low, high, radius) = (s * 0.06, s * 0.94, s * 0.24);
        let width = (s * 0.075).max(1.0);
        let square = px >= low && px < high && py >= low && py < high;
        let cx = px - px.clamp(low + radius, high - radius);
        let cy = py - py.clamp(low + radius, high - radius);
        if !square || (cx * cx + cy * cy).sqrt() > radius {
            return [0, 0, 0, 0];
        }
        let on = |a: (f64, f64), b: (f64, f64)| {
            let (dx, dy) = (b.0 - a.0, b.1 - a.1);
            let t = (((px - a.0) * dx + (py - a.1) * dy) / (dx * dx + dy * dy)).clamp(0.0, 1.0);
            let (ex, ey) = (px - a.0 - dx * t, py - a.1 - dy * t);
            (ex * ex + ey * ey).sqrt() <= width / 2.0
        };
        if on((s * 0.32, s * 0.33), (s * 0.62, s * 0.5))
            || on((s * 0.62, s * 0.5), (s * 0.32, s * 0.67))
            || on((s * 0.34, s * 0.67), (s * 0.68, s * 0.67))
        {
            [ACCENT[0], ACCENT[1], ACCENT[2], 255]
        } else {
            [SURFACE[0], SURFACE[1], SURFACE[2], 255]
        }
    };
    for size in [16u32, 24, 32, 48, 64] {
        let icon = pixels(size);
        for y in 0..size {
            for x in 0..size {
                let at = ((y * size + x) * 4) as usize;
                assert_eq!(icon[at..at + 4], near(size, x, y), "{size}: {x}, {y}");
            }
        }
    }
}

#[test]
fn rounded_square_excludes_its_corners() {
    // In tenths: the square runs from 0 to 32, and its corners have radius 8.
    assert!(rounded_hit((160, 160), 0, 320, 80));
    assert!(rounded_hit((10, 160), 0, 320, 80));
    // The very corner is outside the rounded square.
    assert!(!rounded_hit((2, 2), 0, 320, 80));
}

#[test]
fn segment_distance_covers_the_ends_and_the_middle() {
    // In tenths: the segment runs from 0 to 10 on the axis, and is 2 wide.
    let hit = |x: i128, y: i128| segment_hit((x, y), (0, 0), (1, 0), 100, 20);
    assert!(hit(50, 0));
    assert!(hit(0, 0));
    assert!(hit(100, 5));
    assert!(!hit(50, 30));
    // Beyond either end, the nearest point is the endpoint itself.
    assert!(!hit(-30, 0));
}

#[test]
fn glyphs_thin_out_as_they_shrink() {
    assert_eq!((Size::Row.extent(), Size::Row.stroke()), (15, 120));
    assert_eq!(Size::Button.button(), (24, 20));
    assert_eq!(Size::Title.button(), (32, 20));
    assert!(Size::Title.stroke() < Size::Button.stroke());
    assert_ne!(Icon::Close, Icon::ClosePane);
}

#[test]
fn frames_carry_their_length_and_refuse_other_versions() {
    let request = Request {
        id: 1,
        version: VERSION,
        method: Method::Cancel { request_id: 7 },
    };
    let frame = encode(&request, b"{}").unwrap();
    assert_eq!(frame, vec![0, 0, 0, 2, b'{', b'}']);
    let long = vec![b'x'; 0x1_02_03];
    assert_eq!(encode(&request, &long).unwrap()[..4], [0, 1, 2, 3]);
    assert_eq!(encode(&request, &vec![0; MAX_FRAME]).unwrap().len(), MAX_FRAME + 4);
    assert_eq!(
        encode(&request, &vec![0; MAX_FRAME + 1]),
        Err(FrameError::TooLong)
    );
    let other = Request { version: 2, ..request };
    assert_eq!(encode(&other, b"{}"), Err(FrameError::Version));
    assert_eq!(FrameError::Version.message(), "Unsupported Agent version");
    assert_eq!(FrameError::TooLong.message(), "Agent frame exceeds limit");
}

#[test]
fn words_lines_and_numbers() {
    let chars = |s: &str| s.chars().collect::<Vec<char>>();
    assert_eq!(split_words(&chars("  a\u{3000}b\tc ")), vec!["a", "b", "c"]);
    let lines = split_lines(&chars("a\r\nb\n\nc"));
    assert_eq!(lines, vec!["a", "b", "", "c"]);
    let padded = chars(" \u{a0}x y\n");
    let text: String = trim(&padded).iter().collect();
    assert_eq!(text, "x y");
    assert_eq!(parse_number(&chars("+42"), 10, u32::MAX), Some(42));
    assert_eq!(parse_number(&chars("4294967295"), 10, u32::MAX), Some(u32::MAX));
    assert_eq!(parse_number(&chars("4294967296"), 10, u32::MAX), None);
    assert_eq!(parse_number(&chars("-1"), 10, u32::MAX), None);
    assert_eq!(parse_number(&chars("fF"), 16, 255), Some(255));
    assert_eq!(decimal_string(0), "0");
    assert_eq!(decimal_string(1203), "1203");
}
